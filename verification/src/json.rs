//! A JSON writer and reader for the fixed payment schema.
//!
//! The writer produces the document the wire protocol asks for:
//! member names and string values are quoted, with `"` and `\`
//! escaped and control characters written as `\u00XX`.  The reader
//! accepts the short escapes of JSON (`\n`, `\t`, and the rest) and
//! `\uXXXX` for any code point, surrogate pairs included, and can
//! read past a whole JSON value of any kind, so that members the
//! schema does not know are skipped rather than refused.

use vstd::prelude::*;

verus! {

/// The hexadecimal digit for `n`, in lower case.
pub open spec fn hex_digit_char(n: int) -> char {
    if n < 10 {
        ((48 + n) as u8) as char
    } else {
        ((87 + n) as u8) as char
    }
}

/// How one character is written inside a JSON string literal.
pub open spec fn escaped_char(c: char) -> Seq<char> {
    if c == '"' {
        seq!['\\', '"']
    } else if c == '\\' {
        seq!['\\', '\\']
    } else if (c as u32) < 32 {
        seq![
            '\\',
            'u',
            '0',
            '0',
            hex_digit_char((c as u32) as int / 16),
            hex_digit_char((c as u32) as int % 16),
        ]
    } else {
        seq![c]
    }
}

/// How a whole string is written inside a JSON string literal.
pub open spec fn escape_str(s: Seq<char>) -> Seq<char>
    decreases s.len(),
{
    if s.len() == 0 {
        Seq::<char>::empty()
    } else {
        escaped_char(s[0]) + escape_str(s.skip(1))
    }
}

/// A JSON string literal: the escaped text between double quotes.
pub open spec fn json_str(s: Seq<char>) -> Seq<char> {
    seq!['"'] + escape_str(s) + seq!['"']
}

/// Escaping a concatenation escapes the pieces.
pub proof fn lemma_escape_str_distributes(a: Seq<char>, b: Seq<char>)
    ensures
        escape_str(a + b) == escape_str(a) + escape_str(b),
    decreases a.len(),
{
    if a.len() == 0 {
        assert(a + b =~= b);
        assert(escape_str(a) + escape_str(b) =~= escape_str(b));
    } else {
        assert((a + b).skip(1) =~= a.skip(1) + b);
        lemma_escape_str_distributes(a.skip(1), b);
        assert(escaped_char((a + b)[0]) + (escape_str(a.skip(1)) + escape_str(b)) =~= (
        escaped_char(a[0]) + escape_str(a.skip(1))) + escape_str(b));
    }
}

/// Escaping one more character appends its escaped form.
pub proof fn lemma_escape_str_snoc(s: Seq<char>, c: char)
    ensures
        escape_str(s.push(c)) == escape_str(s) + escaped_char(c),
{
    assert(s.push(c) =~= s + seq![c]);
    lemma_escape_str_distributes(s, seq![c]);
    assert(seq![c].skip(1) =~= Seq::<char>::empty());
    assert(escape_str(seq![c]) == escaped_char(c) + escape_str(Seq::<char>::empty()));
    assert(escaped_char(c) + Seq::<char>::empty() =~= escaped_char(c));
}

/// JSON insignificant whitespace.
pub open spec fn is_ws_char(c: char) -> bool {
    c == ' ' || c == '\t' || c == '\n' || c == '\r'
}

/// The input with its leading whitespace removed.
pub open spec fn skip_ws(s: Seq<char>) -> Seq<char>
    decreases s.len(),
{
    if s.len() > 0 && is_ws_char(s[0]) {
        skip_ws(s.skip(1))
    } else {
        s
    }
}

/// The value of a hexadecimal digit, upper or lower case.
pub open spec fn hex_val(c: char) -> Option<int> {
    if 48 <= c as u32 && c as u32 <= 57 {
        Some(c as u32 - 48)
    } else if 97 <= c as u32 && c as u32 <= 102 {
        Some(c as u32 - 87)
    } else if 65 <= c as u32 && c as u32 <= 70 {
        Some(c as u32 - 55)
    } else {
        None
    }
}

/// Four hexadecimal digits at the head of the input, as one value.
pub open spec fn hex4(s: Seq<char>) -> Option<int> {
    if s.len() < 4 {
        None
    } else {
        match (hex_val(s[0]), hex_val(s[1]), hex_val(s[2]), hex_val(s[3])) {
            (Some(h0), Some(h1), Some(h2), Some(h3)) => Some(h0 * 4096 + h1 * 256 + h2 * 16 + h3),
            _ => None,
        }
    }
}

/// Reads the rest of a JSON string literal, the opening quote already
/// consumed: the decoded text up to the closing quote, and what follows
/// it.  Accepts the escapes `\"`, `\\`, `\/`, `\b`, `\f`, `\n`, `\r`,
/// `\t`, and `\uXXXX` for any code point, a surrogate pair standing
/// for one character; a bare control character, an unknown escape, a
/// lone surrogate, or a missing closing quote is an error.
pub open spec fn parse_string_body(s: Seq<char>) -> Option<(Seq<char>, Seq<char>)>
    decreases s.len(),
{
    if s.len() == 0 {
        None
    } else if s[0] == '"' {
        Some((Seq::<char>::empty(), s.skip(1)))
    } else if s[0] == '\\' {
        if s.len() < 2 {
            None
        } else {
            let e = s[1];
            if e == '"' || e == '\\' || e == '/' {
                match parse_string_body(s.skip(2)) {
                    None => None,
                    Some((t, r)) => Some((seq![e] + t, r)),
                }
            } else if e == 'b' || e == 'f' || e == 'n' || e == 'r' || e == 't' {
                let c = if e == 'b' {
                    (8 as u8) as char
                } else if e == 'f' {
                    (12 as u8) as char
                } else if e == 'n' {
                    (10 as u8) as char
                } else if e == 'r' {
                    (13 as u8) as char
                } else {
                    (9 as u8) as char
                };
                match parse_string_body(s.skip(2)) {
                    None => None,
                    Some((t, r)) => Some((seq![c] + t, r)),
                }
            } else if e == 'u' {
                match hex4(s.skip(2)) {
                    None => None,
                    Some(code) => {
                        if 0xD800 <= code && code < 0xDC00 {
                            if s.len() >= 8 && s[6] == '\\' && s[7] == 'u' {
                                match hex4(s.skip(8)) {
                                    None => None,
                                    Some(code2) => {
                                        if 0xDC00 <= code2 && code2 < 0xE000 {
                                            let sc = 0x10000 + (code - 0xD800) * 1024 + (code2
                                                - 0xDC00);
                                            match parse_string_body(s.skip(12)) {
                                                None => None,
                                                Some((t, r)) => Some(
                                                    (seq![((sc as u32) as char)] + t, r),
                                                ),
                                            }
                                        } else {
                                            None
                                        }
                                    },
                                }
                            } else {
                                None
                            }
                        } else if 0xDC00 <= code && code < 0xE000 {
                            None
                        } else {
                            match parse_string_body(s.skip(6)) {
                                None => None,
                                Some((t, r)) => Some((seq![((code as u32) as char)] + t, r)),
                            }
                        }
                    },
                }
            } else {
                None
            }
        }
    } else if (s[0] as u32) < 32 {
        None
    } else {
        match parse_string_body(s.skip(1)) {
            None => None,
            Some((t, r)) => Some((seq![s[0]] + t, r)),
        }
    }
}

/// Reads a JSON string literal, opening quote included.
pub open spec fn parse_json_string(s: Seq<char>) -> Option<(Seq<char>, Seq<char>)> {
    if s.len() > 0 && s[0] == '"' {
        parse_string_body(s.skip(1))
    } else {
        None
    }
}

/// Whether `p` is how the input begins.
pub open spec fn has_prefix(s: Seq<char>, p: Seq<char>) -> bool {
    p.len() <= s.len() && s.take(p.len() as int) == p
}

/// A character a number token can be made of.  A number is taken as a
/// maximal run of these, which is looser than the JSON number grammar:
/// these members are only skipped, never kept.
pub open spec fn is_number_char(c: char) -> bool {
    (48 <= c as u32 && c as u32 <= 57) || c == '-' || c == '+' || c == '.' || c == 'e' || c == 'E'
}

/// The input with a leading maximal run of number characters removed.
pub open spec fn skip_number_run(s: Seq<char>) -> Seq<char>
    decreases s.len(),
{
    if s.len() > 0 && is_number_char(s[0]) {
        skip_number_run(s.skip(1))
    } else {
        s
    }
}

/// Reads past one JSON value of any kind — a string, an object, an
/// array, a number, `true`, `false` or `null` — keeping nothing: what
/// follows the value, or nothing when none stands at the head.
///
/// `fuel` bounds how many object members and array items are read in
/// all.  The callers pass the input's length, which no value can use
/// up: every member and every item holds at least one character of its
/// own beyond what the count pays for.
pub open spec fn skip_json_value(s: Seq<char>, fuel: nat) -> Option<Seq<char>>
    decreases fuel, s.len(), 2int,
{
    if s.len() == 0 {
        None
    } else if is_ws_char(s[0]) {
        skip_json_value(s.skip(1), fuel)
    } else if s[0] == '"' {
        match parse_string_body(s.skip(1)) {
            None => None,
            Some(p) => Some(p.1),
        }
    } else if s[0] == '{' {
        skip_members(s.skip(1), true, fuel)
    } else if s[0] == '[' {
        skip_items(s.skip(1), true, fuel)
    } else if has_prefix(s, "true"@) {
        Some(s.skip(4))
    } else if has_prefix(s, "false"@) {
        Some(s.skip(5))
    } else if has_prefix(s, "null"@) {
        Some(s.skip(4))
    } else if is_number_char(s[0]) {
        Some(skip_number_run(s))
    } else {
        None
    }
}

/// Reads past the members of an object being skipped, the opening
/// brace already consumed: what follows the closing brace.
pub open spec fn skip_members(s: Seq<char>, first: bool, fuel: nat) -> Option<Seq<char>>
    decreases fuel, s.len(), 6int,
{
    if s.len() == 0 {
        None
    } else if is_ws_char(s[0]) {
        skip_members(s.skip(1), first, fuel)
    } else if s[0] == '}' {
        Some(s.skip(1))
    } else if first {
        skip_member(s, fuel)
    } else if s[0] == ',' {
        skip_member(s.skip(1), fuel)
    } else {
        None
    }
}

/// Reads past one member of an object being skipped: its name, the
/// colon, its value, and whatever members follow.
pub open spec fn skip_member(s: Seq<char>, fuel: nat) -> Option<Seq<char>>
    decreases fuel, s.len(), 3int,
{
    if s.len() == 0 {
        None
    } else if is_ws_char(s[0]) {
        skip_member(s.skip(1), fuel)
    } else if fuel == 0 {
        None
    } else {
        match parse_json_string(s) {
            None => None,
            Some(p) => skip_colon_value(p.1, (fuel - 1) as nat),
        }
    }
}

/// Reads past the colon and value of a member being skipped, and then
/// whatever members follow.
pub open spec fn skip_colon_value(s: Seq<char>, fuel: nat) -> Option<Seq<char>>
    decreases fuel, s.len(), 0int,
{
    if s.len() == 0 {
        None
    } else if is_ws_char(s[0]) {
        skip_colon_value(s.skip(1), fuel)
    } else if s[0] != ':' {
        None
    } else if fuel == 0 {
        None
    } else {
        match skip_json_value(s.skip(1), fuel) {
            None => None,
            Some(r) => skip_members(r, false, (fuel - 1) as nat),
        }
    }
}

/// Reads past the items of an array being skipped, the opening
/// bracket already consumed: what follows the closing bracket.
pub open spec fn skip_items(s: Seq<char>, first: bool, fuel: nat) -> Option<Seq<char>>
    decreases fuel, s.len(), 6int,
{
    if s.len() == 0 {
        None
    } else if is_ws_char(s[0]) {
        skip_items(s.skip(1), first, fuel)
    } else if s[0] == ']' {
        Some(s.skip(1))
    } else if first {
        skip_item(s, fuel)
    } else if s[0] == ',' {
        skip_item(s.skip(1), fuel)
    } else {
        None
    }
}

/// Reads past one item of an array being skipped, and then whatever
/// items follow.
pub open spec fn skip_item(s: Seq<char>, fuel: nat) -> Option<Seq<char>>
    decreases fuel, s.len(), 3int,
{
    if fuel == 0 {
        None
    } else {
        match skip_json_value(s, fuel) {
            None => None,
            Some(r) => skip_items(r, false, (fuel - 1) as nat),
        }
    }
}

/// Reading a lower-case hexadecimal digit gives back its value.
pub proof fn lemma_hex_digit_round_trip(n: int)
    requires
        0 <= n < 16,
    ensures
        hex_val(hex_digit_char(n)) == Some(n),
{
}

/// Reading an escaped string gives the string back unchanged, and
/// leaves what follows the closing quote untouched.
pub proof fn lemma_parse_escape_str(s: Seq<char>, rest: Seq<char>)
    ensures
        parse_string_body(escape_str(s) + seq!['"'] + rest) == Some((s, rest)),
    decreases s.len(),
{
    let full = escape_str(s) + seq!['"'] + rest;
    if s.len() == 0 {
        assert(full =~= seq!['"'] + rest);
        assert(full.skip(1) =~= rest);
    } else {
        let c = s[0];
        let tail = escape_str(s.skip(1)) + seq!['"'] + rest;
        assert(full =~= escaped_char(c) + tail);
        lemma_parse_escape_str(s.skip(1), rest);
        if c == '"' || c == '\\' {
            assert(full[0] == '\\');
            assert(full[1] == c);
            assert(full.skip(2) =~= tail);
            assert(seq![c] + s.skip(1) =~= s);
        } else if (c as u32) < 32 {
            let cv = c as u32;
            assert(full[0] == '\\');
            assert(full[1] == 'u');
            assert(full[2] == '0');
            assert(full[3] == '0');
            assert(full[4] == hex_digit_char(cv as int / 16));
            assert(full[5] == hex_digit_char(cv as int % 16));
            lemma_hex_digit_round_trip(cv as int / 16);
            lemma_hex_digit_round_trip(cv as int % 16);
            assert(hex_val('0') == Some(0int));
            assert(full.skip(2)[0] == full[2]);
            assert(full.skip(2)[1] == full[3]);
            assert(full.skip(2)[2] == full[4]);
            assert(full.skip(2)[3] == full[5]);
            assert(full.skip(2).len() >= 4);
            let code = cv as int / 16 * 16 + cv as int % 16;
            assert(hex4(full.skip(2)) == Some(code));
            assert(code == cv as int);
            vstd::utf8::char_u32_cast(c, cv);
            assert(((code as u32) as char) == c);
            assert(full.skip(6) =~= tail);
            assert(seq![c] + s.skip(1) =~= s);
        } else {
            assert(full[0] == c);
            assert(full.skip(1) =~= tail);
            assert(seq![c] + s.skip(1) =~= s);
        }
    }
}

/// Reading a written JSON string literal gives back the string.
pub proof fn lemma_parse_json_str(s: Seq<char>, rest: Seq<char>)
    ensures
        parse_json_string(json_str(s) + rest) == Some((s, rest)),
{
    let full = json_str(s) + rest;
    assert(full[0] == '"');
    assert(full.skip(1) =~= escape_str(s) + seq!['"'] + rest);
    lemma_parse_escape_str(s, rest);
}

/// A prefix fixes the input character by character.
proof fn lemma_prefix_index(s: Seq<char>, p: Seq<char>, k: int)
    requires
        has_prefix(s, p),
        0 <= k < p.len(),
    ensures
        s[k] == p[k],
{
    assert(s.take(p.len() as int)[k] == s[k]);
}

/// The position after a leading maximal run of number characters.
fn skip_number_run_exec(s: &str, i: usize) -> (j: usize)
    requires
        i <= s@.len(),
    ensures
        i <= j <= s@.len(),
        s@.skip(j as int) == skip_number_run(s@.skip(i as int)),
{
    let n: usize = s.unicode_len();
    let mut j: usize = i;
    while j < n
        invariant
            i <= j <= n,
            n == s@.len(),
            skip_number_run(s@.skip(i as int)) == skip_number_run(s@.skip(j as int)),
        decreases n - j,
    {
        let c = s.get_char(j);
        proof {
            assert(s@.skip(j as int)[0] == s@[j as int]);
        }
        let cu = c as u32;
        if !((48 <= cu && cu <= 57) || c == '-' || c == '+' || c == '.' || c == 'e' || c == 'E') {
            return j;
        }
        proof {
            assert(s@.skip(j as int).skip(1) =~= s@.skip(j as int + 1));
        }
        j = j + 1;
    }
    proof {
        assert(s@.skip(n as int) =~= Seq::<char>::empty());
    }
    j
}

/// Reads past one JSON value, as [`skip_json_value`] says.
pub fn skip_json_value_exec(s: &str, i: usize, fuel: usize) -> (r: Option<usize>)
    requires
        i <= s@.len(),
    ensures
        match r {
            Some(j) => j <= s@.len() && skip_json_value(s@.skip(i as int), fuel as nat) == Some(
                s@.skip(j as int),
            ),
            None => skip_json_value(s@.skip(i as int), fuel as nat) is None,
        },
    decreases fuel, s@.len() - i, 2int,
{
    let n: usize = s.unicode_len();
    proof {
        assert(s@.skip(i as int).len() == n - i);
    }
    if i == n {
        return None;
    }
    proof {
        assert(s@.skip(i as int)[0] == s@[i as int]);
    }
    let c = s.get_char(i);
    if c == ' ' || c == '\t' || c == '\n' || c == '\r' {
        proof {
            assert(s@.skip(i as int).skip(1) =~= s@.skip(i as int + 1));
        }
        return skip_json_value_exec(s, i + 1, fuel);
    }
    if c == '"' {
        proof {
            assert(s@.skip(i as int).skip(1) =~= s@.skip(i as int + 1));
        }
        return match parse_json_string_exec(s, i) {
            Some(p) => Some(p.1),
            None => None,
        };
    }
    if c == '{' {
        proof {
            assert(s@.skip(i as int).skip(1) =~= s@.skip(i as int + 1));
        }
        return skip_members_exec(s, i + 1, true, fuel);
    }
    if c == '[' {
        proof {
            assert(s@.skip(i as int).skip(1) =~= s@.skip(i as int + 1));
        }
        return skip_items_exec(s, i + 1, true, fuel);
    }
    proof {
        reveal_strlit("true");
        reveal_strlit("false");
        reveal_strlit("null");
    }
    if c == 't' {
        if n - i >= 4 {
            proof {
                assert(s@.skip(i as int)[1] == s@[i as int + 1]);
                assert(s@.skip(i as int)[2] == s@[i as int + 2]);
                assert(s@.skip(i as int)[3] == s@[i as int + 3]);
            }
            if s.get_char(i + 1) == 'r' && s.get_char(i + 2) == 'u' && s.get_char(i + 3) == 'e' {
                proof {
                    assert(s@.skip(i as int).take(4) =~= "true"@);
                    assert(s@.skip(i as int).skip(4) =~= s@.skip(i as int + 4));
                }
                return Some(i + 4);
            }
        }
        proof {
            let ghost sk = s@.skip(i as int);
            if has_prefix(sk, "true"@) {
                lemma_prefix_index(sk, "true"@, 1);
                lemma_prefix_index(sk, "true"@, 2);
                lemma_prefix_index(sk, "true"@, 3);
                assert(false);
            }
            if has_prefix(sk, "false"@) {
                lemma_prefix_index(sk, "false"@, 0);
                assert(false);
            }
            if has_prefix(sk, "null"@) {
                lemma_prefix_index(sk, "null"@, 0);
                assert(false);
            }
        }
        return None;
    }
    if c == 'f' {
        if n - i >= 5 {
            proof {
                assert(s@.skip(i as int)[1] == s@[i as int + 1]);
                assert(s@.skip(i as int)[2] == s@[i as int + 2]);
                assert(s@.skip(i as int)[3] == s@[i as int + 3]);
                assert(s@.skip(i as int)[4] == s@[i as int + 4]);
            }
            if s.get_char(i + 1) == 'a' && s.get_char(i + 2) == 'l' && s.get_char(i + 3) == 's'
                && s.get_char(i + 4) == 'e' {
                proof {
                    let ghost sk = s@.skip(i as int);
                    if has_prefix(sk, "true"@) {
                        lemma_prefix_index(sk, "true"@, 0);
                        assert(false);
                    }
                    assert(sk.take(5) =~= "false"@);
                    assert(sk.skip(5) =~= s@.skip(i as int + 5));
                }
                return Some(i + 5);
            }
        }
        proof {
            let ghost sk = s@.skip(i as int);
            if has_prefix(sk, "true"@) {
                lemma_prefix_index(sk, "true"@, 0);
                assert(false);
            }
            if has_prefix(sk, "false"@) {
                lemma_prefix_index(sk, "false"@, 1);
                lemma_prefix_index(sk, "false"@, 2);
                lemma_prefix_index(sk, "false"@, 3);
                lemma_prefix_index(sk, "false"@, 4);
                assert(false);
            }
            if has_prefix(sk, "null"@) {
                lemma_prefix_index(sk, "null"@, 0);
                assert(false);
            }
        }
        return None;
    }
    if c == 'n' {
        if n - i >= 4 {
            proof {
                assert(s@.skip(i as int)[1] == s@[i as int + 1]);
                assert(s@.skip(i as int)[2] == s@[i as int + 2]);
                assert(s@.skip(i as int)[3] == s@[i as int + 3]);
            }
            if s.get_char(i + 1) == 'u' && s.get_char(i + 2) == 'l' && s.get_char(i + 3) == 'l' {
                proof {
                    let ghost sk = s@.skip(i as int);
                    if has_prefix(sk, "true"@) {
                        lemma_prefix_index(sk, "true"@, 0);
                        assert(false);
                    }
                    if has_prefix(sk, "false"@) {
                        lemma_prefix_index(sk, "false"@, 0);
                        assert(false);
                    }
                    assert(sk.take(4) =~= "null"@);
                    assert(sk.skip(4) =~= s@.skip(i as int + 4));
                }
                return Some(i + 4);
            }
        }
        proof {
            let ghost sk = s@.skip(i as int);
            if has_prefix(sk, "true"@) {
                lemma_prefix_index(sk, "true"@, 0);
                assert(false);
            }
            if has_prefix(sk, "false"@) {
                lemma_prefix_index(sk, "false"@, 0);
                assert(false);
            }
            if has_prefix(sk, "null"@) {
                lemma_prefix_index(sk, "null"@, 1);
                lemma_prefix_index(sk, "null"@, 2);
                lemma_prefix_index(sk, "null"@, 3);
                assert(false);
            }
        }
        return None;
    }
    let cu = c as u32;
    if (48 <= cu && cu <= 57) || c == '-' || c == '+' || c == '.' || c == 'e' || c == 'E' {
        proof {
            let ghost sk = s@.skip(i as int);
            if has_prefix(sk, "true"@) {
                lemma_prefix_index(sk, "true"@, 0);
                assert(false);
            }
            if has_prefix(sk, "false"@) {
                lemma_prefix_index(sk, "false"@, 0);
                assert(false);
            }
            if has_prefix(sk, "null"@) {
                lemma_prefix_index(sk, "null"@, 0);
                assert(false);
            }
        }
        let j = skip_number_run_exec(s, i);
        return Some(j);
    }
    proof {
        let ghost sk = s@.skip(i as int);
        if has_prefix(sk, "true"@) {
            lemma_prefix_index(sk, "true"@, 0);
            assert(false);
        }
        if has_prefix(sk, "false"@) {
            lemma_prefix_index(sk, "false"@, 0);
            assert(false);
        }
        if has_prefix(sk, "null"@) {
            lemma_prefix_index(sk, "null"@, 0);
            assert(false);
        }
    }
    None
}

/// Reads past an object's members, as [`skip_members`] says.
fn skip_members_exec(s: &str, i: usize, first: bool, fuel: usize) -> (r: Option<usize>)
    requires
        i <= s@.len(),
    ensures
        match r {
            Some(j) => j <= s@.len() && skip_members(s@.skip(i as int), first, fuel as nat)
                == Some(s@.skip(j as int)),
            None => skip_members(s@.skip(i as int), first, fuel as nat) is None,
        },
    decreases fuel, s@.len() - i, 6int,
{
    let n: usize = s.unicode_len();
    proof {
        assert(s@.skip(i as int).len() == n - i);
    }
    if i == n {
        return None;
    }
    proof {
        assert(s@.skip(i as int)[0] == s@[i as int]);
    }
    let c = s.get_char(i);
    if c == ' ' || c == '\t' || c == '\n' || c == '\r' {
        proof {
            assert(s@.skip(i as int).skip(1) =~= s@.skip(i as int + 1));
        }
        return skip_members_exec(s, i + 1, first, fuel);
    }
    if c == '}' {
        proof {
            assert(s@.skip(i as int).skip(1) =~= s@.skip(i as int + 1));
        }
        return Some(i + 1);
    }
    if first {
        return skip_member_exec(s, i, fuel);
    }
    if c == ',' {
        proof {
            assert(s@.skip(i as int).skip(1) =~= s@.skip(i as int + 1));
        }
        return skip_member_exec(s, i + 1, fuel);
    }
    None
}

/// Reads past one member being skipped, as [`skip_member`] says.
fn skip_member_exec(s: &str, i: usize, fuel: usize) -> (r: Option<usize>)
    requires
        i <= s@.len(),
    ensures
        match r {
            Some(j) => j <= s@.len() && skip_member(s@.skip(i as int), fuel as nat) == Some(
                s@.skip(j as int),
            ),
            None => skip_member(s@.skip(i as int), fuel as nat) is None,
        },
    decreases fuel, s@.len() - i, 3int,
{
    let n: usize = s.unicode_len();
    proof {
        assert(s@.skip(i as int).len() == n - i);
    }
    if i == n {
        return None;
    }
    proof {
        assert(s@.skip(i as int)[0] == s@[i as int]);
    }
    let c = s.get_char(i);
    if c == ' ' || c == '\t' || c == '\n' || c == '\r' {
        proof {
            assert(s@.skip(i as int).skip(1) =~= s@.skip(i as int + 1));
        }
        return skip_member_exec(s, i + 1, fuel);
    }
    if fuel == 0 {
        return None;
    }
    match parse_json_string_exec(s, i) {
        None => None,
        Some(p) => skip_colon_value_exec(s, p.1, fuel - 1),
    }
}

/// Reads past a skipped member's colon and value, as
/// [`skip_colon_value`] says.
fn skip_colon_value_exec(s: &str, i: usize, fuel: usize) -> (r: Option<usize>)
    requires
        i <= s@.len(),
    ensures
        match r {
            Some(j) => j <= s@.len() && skip_colon_value(s@.skip(i as int), fuel as nat) == Some(
                s@.skip(j as int),
            ),
            None => skip_colon_value(s@.skip(i as int), fuel as nat) is None,
        },
    decreases fuel, s@.len() - i, 0int,
{
    let n: usize = s.unicode_len();
    proof {
        assert(s@.skip(i as int).len() == n - i);
    }
    if i == n {
        return None;
    }
    proof {
        assert(s@.skip(i as int)[0] == s@[i as int]);
    }
    let c = s.get_char(i);
    if c == ' ' || c == '\t' || c == '\n' || c == '\r' {
        proof {
            assert(s@.skip(i as int).skip(1) =~= s@.skip(i as int + 1));
        }
        return skip_colon_value_exec(s, i + 1, fuel);
    }
    if c != ':' {
        return None;
    }
    if fuel == 0 {
        return None;
    }
    proof {
        assert(s@.skip(i as int).skip(1) =~= s@.skip(i as int + 1));
    }
    match skip_json_value_exec(s, i + 1, fuel) {
        None => None,
        Some(j) => skip_members_exec(s, j, false, fuel - 1),
    }
}

/// Reads past an array's items, as [`skip_items`] says.
fn skip_items_exec(s: &str, i: usize, first: bool, fuel: usize) -> (r: Option<usize>)
    requires
        i <= s@.len(),
    ensures
        match r {
            Some(j) => j <= s@.len() && skip_items(s@.skip(i as int), first, fuel as nat) == Some(
                s@.skip(j as int),
            ),
            None => skip_items(s@.skip(i as int), first, fuel as nat) is None,
        },
    decreases fuel, s@.len() - i, 6int,
{
    let n: usize = s.unicode_len();
    proof {
        assert(s@.skip(i as int).len() == n - i);
    }
    if i == n {
        return None;
    }
    proof {
        assert(s@.skip(i as int)[0] == s@[i as int]);
    }
    let c = s.get_char(i);
    if c == ' ' || c == '\t' || c == '\n' || c == '\r' {
        proof {
            assert(s@.skip(i as int).skip(1) =~= s@.skip(i as int + 1));
        }
        return skip_items_exec(s, i + 1, first, fuel);
    }
    if c == ']' {
        proof {
            assert(s@.skip(i as int).skip(1) =~= s@.skip(i as int + 1));
        }
        return Some(i + 1);
    }
    if first {
        return skip_item_exec(s, i, fuel);
    }
    if c == ',' {
        proof {
            assert(s@.skip(i as int).skip(1) =~= s@.skip(i as int + 1));
        }
        return skip_item_exec(s, i + 1, fuel);
    }
    None
}

/// Reads past one item being skipped, as [`skip_item`] says.
fn skip_item_exec(s: &str, i: usize, fuel: usize) -> (r: Option<usize>)
    requires
        i <= s@.len(),
    ensures
        match r {
            Some(j) => j <= s@.len() && skip_item(s@.skip(i as int), fuel as nat) == Some(
                s@.skip(j as int),
            ),
            None => skip_item(s@.skip(i as int), fuel as nat) is None,
        },
    decreases fuel, s@.len() - i, 3int,
{
    if fuel == 0 {
        return None;
    }
    match skip_json_value_exec(s, i, fuel) {
        None => None,
        Some(j) => skip_items_exec(s, j, false, fuel - 1),
    }
}

/// Relies on `String::push`: appends exactly the given character.
pub assume_specification[ String::push ](s: &mut String, c: char)
    ensures
        final(s)@ == old(s)@.push(c),
;

/// The value of a hexadecimal digit, upper or lower case.
fn hex_val_exec(c: char) -> (r: Option<u8>)
    ensures
        match r {
            Some(v) => hex_val(c) == Some(v as int),
            None => hex_val(c) is None,
        },
{
    let u = c as u32;
    if 48 <= u && u <= 57 {
        Some((u - 48) as u8)
    } else if 97 <= u && u <= 102 {
        Some((u - 87) as u8)
    } else if 65 <= u && u <= 70 {
        Some((u - 55) as u8)
    } else {
        None
    }
}

/// Relies on `char::from_u32`: yields the character with the given
/// code point exactly when one exists (the value is not a surrogate
/// and at most 0x10FFFF), and nothing otherwise.
pub assume_specification[ char::from_u32 ](v: u32) -> (r: Option<char>)
    ensures
        r is Some <==> (v < 0xD800 || (0xE000 <= v && v <= 0x10FFFF)),
        match r {
            Some(c) => c as u32 == v,
            None => true,
        },
;

/// Four hexadecimal digits starting at `i`, as one value.
fn hex4_exec(s: &str, i: usize) -> (r: Option<u32>)
    requires
        i <= s@.len(),
    ensures
        match r {
            Some(v) => hex4(s@.skip(i as int)) == Some(v as int) && v < 0x10000,
            None => hex4(s@.skip(i as int)) is None,
        },
{
    let n: usize = s.unicode_len();
    proof {
        assert(s@.skip(i as int).len() == n - i);
    }
    if n - i < 4 {
        return None;
    }
    proof {
        assert(s@.skip(i as int)[0] == s@[i as int]);
        assert(s@.skip(i as int)[1] == s@[i as int + 1]);
        assert(s@.skip(i as int)[2] == s@[i as int + 2]);
        assert(s@.skip(i as int)[3] == s@[i as int + 3]);
    }
    let h0 = hex_val_exec(s.get_char(i));
    let h1 = hex_val_exec(s.get_char(i + 1));
    let h2 = hex_val_exec(s.get_char(i + 2));
    let h3 = hex_val_exec(s.get_char(i + 3));
    match (h0, h1, h2, h3) {
        (Some(v0), Some(v1), Some(v2), Some(v3)) => Some(
            (v0 as u32) * 4096 + (v1 as u32) * 256 + (v2 as u32) * 16 + (v3 as u32),
        ),
        _ => None,
    }
}

/// The first position at or after `i` that holds no whitespace.
pub fn ws_end(s: &str, i: usize) -> (j: usize)
    requires
        i <= s@.len(),
    ensures
        i <= j <= s@.len(),
        s@.skip(j as int) == skip_ws(s@.skip(i as int)),
{
    let n: usize = s.unicode_len();
    let mut j: usize = i;
    while j < n
        invariant
            i <= j <= n,
            n == s@.len(),
            skip_ws(s@.skip(i as int)) == skip_ws(s@.skip(j as int)),
        decreases n - j,
    {
        let c = s.get_char(j);
        proof {
            assert(s@.skip(j as int)[0] == s@[j as int]);
        }
        if !(c == ' ' || c == '\t' || c == '\n' || c == '\r') {
            return j;
        }
        proof {
            assert(s@.skip(j as int).skip(1) =~= s@.skip(j as int + 1));
        }
        j = j + 1;
    }
    proof {
        assert(s@.skip(n as int) =~= Seq::<char>::empty());
    }
    j
}

/// Reads a JSON string literal starting at `i`: the decoded text and
/// the position just past the closing quote.
#[verifier::rlimit(100)]
pub fn parse_json_string_exec(s: &str, i: usize) -> (r: Option<(String, usize)>)
    requires
        i <= s@.len(),
    ensures
        match r {
            Some(p) => p.1 <= s@.len() && parse_json_string(s@.skip(i as int)) == Some(
                (p.0@, s@.skip(p.1 as int)),
            ),
            None => parse_json_string(s@.skip(i as int)) is None,
        },
{
    let n: usize = s.unicode_len();
    if i == n {
        return None;
    }
    proof {
        assert(s@.skip(i as int)[0] == s@[i as int]);
    }
    let c0 = s.get_char(i);
    if c0 != '"' {
        return None;
    }
    proof {
        assert(s@.skip(i as int).skip(1) =~= s@.skip(i as int + 1));
    }
    let ghost start: Seq<char> = s@.skip(i as int + 1);
    let mut acc = String::new();
    let mut j: usize = i + 1;
    while j < n
        invariant
            i + 1 <= j <= n,
            n == s@.len(),
            start == s@.skip(i as int + 1),
            parse_json_string(s@.skip(i as int)) == parse_string_body(start),
            match parse_string_body(s@.skip(j as int)) {
                Some(p) => parse_string_body(start) == Some((acc@ + p.0, p.1)),
                None => parse_string_body(start) is None,
            },
        decreases n - j,
    {
        let c = s.get_char(j);
        proof {
            assert(s@.skip(j as int)[0] == s@[j as int]);
            assert(s@.skip(j as int).len() == n - j);
        }
        if c == '"' {
            proof {
                assert(s@.skip(j as int).skip(1) =~= s@.skip(j as int + 1));
                assert(acc@ + Seq::<char>::empty() =~= acc@);
            }
            return Some((acc, j + 1));
        }
        if c == '\\' {
            if n - j < 2 {
                return None;
            }
            proof {
                assert(s@.skip(j as int)[1] == s@[j as int + 1]);
            }
            let e = s.get_char(j + 1);
            if e == '"' || e == '\\' || e == '/' {
                let ghost old_acc = acc@;
                acc.push(e);
                proof {
                    assert(s@.skip(j as int).skip(2) =~= s@.skip(j as int + 2));
                    if let Some(p) = parse_string_body(s@.skip(j as int + 2)) {
                        assert(old_acc + (seq![e] + p.0) =~= acc@ + p.0);
                    }
                }
                j = j + 2;
            } else if e == 'b' || e == 'f' || e == 'n' || e == 'r' || e == 't' {
                let d: char = if e == 'b' {
                    (8 as u8) as char
                } else if e == 'f' {
                    (12 as u8) as char
                } else if e == 'n' {
                    (10 as u8) as char
                } else if e == 'r' {
                    (13 as u8) as char
                } else {
                    (9 as u8) as char
                };
                let ghost old_acc = acc@;
                acc.push(d);
                proof {
                    assert(s@.skip(j as int).skip(2) =~= s@.skip(j as int + 2));
                    if let Some(p) = parse_string_body(s@.skip(j as int + 2)) {
                        assert(old_acc + (seq![d] + p.0) =~= acc@ + p.0);
                    }
                }
                j = j + 2;
            } else if e == 'u' {
                proof {
                    assert(s@.skip(j as int).skip(2) =~= s@.skip(j as int + 2));
                }
                match hex4_exec(s, j + 2) {
                    None => {
                        return None;
                    },
                    Some(code) => {
                        if 0xD800 <= code && code < 0xDC00 {
                            if n - j < 8 {
                                return None;
                            }
                            proof {
                                assert(s@.skip(j as int)[6] == s@[j as int + 6]);
                                assert(s@.skip(j as int)[7] == s@[j as int + 7]);
                            }
                            if !(s.get_char(j + 6) == '\\' && s.get_char(j + 7) == 'u') {
                                return None;
                            }
                            proof {
                                assert(s@.skip(j as int).skip(8) =~= s@.skip(j as int + 8));
                            }
                            match hex4_exec(s, j + 8) {
                                None => {
                                    return None;
                                },
                                Some(code2) => {
                                    if !(0xDC00 <= code2 && code2 < 0xE000) {
                                        return None;
                                    }
                                    let sc: u32 = 0x10000 + (code - 0xD800) * 1024 + (code2
                                        - 0xDC00);
                                    if let Some(d) = char::from_u32(sc) {
                                        let ghost old_acc = acc@;
                                        acc.push(d);
                                        proof {
                                            vstd::utf8::char_u32_cast(d, sc);
                                            assert(s@.skip(j as int).skip(12) =~= s@.skip(
                                                j as int + 12,
                                            ));
                                            if let Some(p) = parse_string_body(
                                                s@.skip(j as int + 12),
                                            ) {
                                                assert(old_acc + (seq![d] + p.0) =~= acc@ + p.0);
                                            }
                                        }
                                        j = j + 12;
                                    } else {
                                        return None;
                                    }
                                },
                            }
                        } else if 0xDC00 <= code && code < 0xE000 {
                            return None;
                        } else {
                            if let Some(d) = char::from_u32(code) {
                                let ghost old_acc = acc@;
                                acc.push(d);
                                proof {
                                    vstd::utf8::char_u32_cast(d, code);
                                    assert(s@.skip(j as int).skip(6) =~= s@.skip(j as int + 6));
                                    if let Some(p) = parse_string_body(s@.skip(j as int + 6)) {
                                        assert(old_acc + (seq![d] + p.0) =~= acc@ + p.0);
                                    }
                                }
                                j = j + 6;
                            } else {
                                return None;
                            }
                        }
                    },
                }
            } else {
                return None;
            }
        } else if (c as u32) < 32 {
            return None;
        } else {
            let ghost old_acc = acc@;
            acc.push(c);
            proof {
                assert(s@.skip(j as int).skip(1) =~= s@.skip(j as int + 1));
                if let Some(p) = parse_string_body(s@.skip(j as int + 1)) {
                    assert(old_acc + (seq![c] + p.0) =~= acc@ + p.0);
                }
            }
            j = j + 1;
        }
    }
    proof {
        assert(s@.skip(n as int) =~= Seq::<char>::empty());
    }
    None
}

/// The hexadecimal digit for `n`, in lower case.
fn hex_digit(n: u8) -> (c: char)
    requires
        n < 16,
    ensures
        c == hex_digit_char(n as int),
{
    if n < 10 {
        (48 + n) as char
    } else {
        (87 + n) as char
    }
}

/// Appends `s` to `out` as a JSON string literal, quotes included.
pub fn append_json_string(out: &mut String, s: &str)
    ensures
        final(out)@ == old(out)@ + json_str(s@),
{
    let ghost orig: Seq<char> = out@;
    out.push('"');
    let n: usize = s.unicode_len();
    let mut i: usize = 0;
    while i < n
        invariant
            n == s@.len(),
            i <= n,
            out@ == orig + seq!['"'] + escape_str(s@.take(i as int)),
        decreases n - i,
    {
        let c = s.get_char(i);
        if c == '"' {
            out.push('\\');
            out.push('"');
        } else if c == '\\' {
            out.push('\\');
            out.push('\\');
        } else if (c as u32) < 32 {
            let code: u32 = c as u32;
            out.push('\\');
            out.push('u');
            out.push('0');
            out.push('0');
            proof {
                assert(code / 16 < 16);
                assert(code % 16 < 16);
            }
            out.push(hex_digit((code / 16) as u8));
            out.push(hex_digit((code % 16) as u8));
        } else {
            out.push(c);
        }
        proof {
            lemma_escape_str_snoc(s@.take(i as int), s@[i as int]);
            assert(s@.take(i as int).push(s@[i as int]) =~= s@.take(i as int + 1));
            assert(out@ =~= orig + seq!['"'] + escape_str(s@.take(i as int + 1)));
        }
        i = i + 1;
    }
    proof {
        assert(s@.take(n as int) =~= s@);
    }
    out.push('"');
    proof {
        assert(out@ =~= orig + json_str(s@));
    }
}

} // verus!
