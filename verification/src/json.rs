use vstd::prelude::*;

use crate::record::{Beer, BeerView};

verus! {

// ---------------------------------------------------------------------------
// The wire format, stated over sequences of characters.
//
// A record travels as a JSON object with exactly the two string members
// `brewery` and `name`, in either order; a list of records travels as a JSON
// array of such objects.  Inside a string, `"`, `\` and control characters
// are escaped; the parser accepts the single-character escapes of JSON and
// `\uXXXX` (with a surrogate pair standing for one character beyond the
// basic plane), and rejects everything else.
// ---------------------------------------------------------------------------

/// The characters that may stand between the tokens of a body.
pub open spec fn is_json_ws(c: char) -> bool {
    c == ' ' || c == '\t' || c == '\n' || c == '\r'
}

/// The first position at or after `i` that does not hold whitespace.
pub open spec fn spec_skip_ws(s: Seq<char>, i: int) -> int
    decreases s.len() - i,
{
    if 0 <= i < s.len() && is_json_ws(s[i]) {
        spec_skip_ws(s, i + 1)
    } else {
        i
    }
}

/// What a single-character escape stands for, if it is one.
pub open spec fn spec_unescape(c: char) -> Option<char> {
    if c == '"' {
        Some('"')
    } else if c == '\\' {
        Some('\\')
    } else if c == '/' {
        Some('/')
    } else if c == 'b' {
        Some('\u{0008}')
    } else if c == 'f' {
        Some('\u{000C}')
    } else if c == 'n' {
        Some('\n')
    } else if c == 'r' {
        Some('\r')
    } else if c == 't' {
        Some('\t')
    } else {
        None
    }
}

/// Whether a character is a hexadecimal digit.
pub open spec fn is_hex_digit(c: char) -> bool {
    (48 <= c as u32 && c as u32 <= 57) || (97 <= c as u32 && c as u32 <= 102) || (65 <= c as u32
        && c as u32 <= 70)
}

/// The value of one hexadecimal digit.
pub open spec fn hex_val(c: char) -> int {
    if 48 <= c as u32 && c as u32 <= 57 {
        c as u32 - 48
    } else if 97 <= c as u32 {
        c as u32 - 87
    } else {
        c as u32 - 55
    }
}

/// Whether four hexadecimal digits stand at position `i`.
pub open spec fn has_hex4(s: Seq<char>, i: int) -> bool {
    i + 4 <= s.len() && is_hex_digit(s[i]) && is_hex_digit(s[i + 1]) && is_hex_digit(s[i + 2])
        && is_hex_digit(s[i + 3])
}

/// The value of the four hexadecimal digits at position `i`.
pub open spec fn spec_hex4(s: Seq<char>, i: int) -> int {
    hex_val(s[i]) * 4096 + hex_val(s[i + 1]) * 256 + hex_val(s[i + 2]) * 16 + hex_val(s[i + 3])
}

/// The character with the given code point.
pub open spec fn code_to_char(v: int) -> char {
    choose|c: char| #[trigger] (c as u32) == v
}

/// The rest of a string literal, read from position `i` (just past the
/// opening quote) with `acc` already read: the text up to the closing quote
/// and the position just past it, or nothing if the literal is broken off,
/// holds a bad escape, or holds a raw control character.
pub open spec fn spec_parse_string_body(s: Seq<char>, i: int, acc: Seq<char>) -> Option<
    (Seq<char>, int),
>
    decreases s.len() - i,
{
    if i < 0 || i >= s.len() {
        None
    } else if s[i] == '"' {
        Some((acc, i + 1))
    } else if s[i] == '\\' {
        if i + 1 < s.len() && s[i + 1] == 'u' {
            if has_hex4(s, i + 2) {
                let v = spec_hex4(s, i + 2);
                if v < 0xD800 || 0xE000 <= v {
                    spec_parse_string_body(s, i + 6, acc.push(code_to_char(v)))
                } else if v < 0xDC00 {
                    if i + 8 <= s.len() && s[i + 6] == '\\' && s[i + 7] == 'u' && has_hex4(
                        s,
                        i + 8,
                    ) {
                        let w = spec_hex4(s, i + 8);
                        if 0xDC00 <= w && w < 0xE000 {
                            spec_parse_string_body(
                                s,
                                i + 12,
                                acc.push(code_to_char(0x10000 + (v - 0xD800) * 0x400 + (w - 0xDC00))),
                            )
                        } else {
                            None
                        }
                    } else {
                        None
                    }
                } else {
                    None
                }
            } else {
                None
            }
        } else if i + 1 < s.len() && spec_unescape(s[i + 1]) is Some {
            spec_parse_string_body(s, i + 2, acc.push(spec_unescape(s[i + 1]).unwrap()))
        } else {
            None
        }
    } else if (s[i] as u32) < 32 {
        None
    } else {
        spec_parse_string_body(s, i + 1, acc.push(s[i]))
    }
}

/// A string literal starting at position `i`.
pub open spec fn spec_parse_string(s: Seq<char>, i: int) -> Option<(Seq<char>, int)> {
    if 0 <= i < s.len() && s[i] == '"' {
        spec_parse_string_body(s, i + 1, Seq::empty())
    } else {
        None
    }
}

/// One `"key": "value"` member starting at position `i`, whitespace allowed
/// around its tokens: the key, the value and the position just past the value.
pub open spec fn spec_parse_member(s: Seq<char>, i: int) -> Option<((Seq<char>, Seq<char>), int)> {
    let j = spec_skip_ws(s, i);
    match spec_parse_string(s, j) {
        None => None,
        Some((key, k)) => {
            let k2 = spec_skip_ws(s, k);
            if k2 < s.len() && s[k2] == ':' {
                let k3 = spec_skip_ws(s, k2 + 1);
                match spec_parse_string(s, k3) {
                    None => None,
                    Some((val, m)) => Some(((key, val), m)),
                }
            } else {
                None
            }
        },
    }
}

/// The record named by two members, which must be `brewery` and `name` in
/// either order.
pub open spec fn spec_fields_to_record(m1: (Seq<char>, Seq<char>), m2: (Seq<char>, Seq<char>)) -> Option<
    BeerView,
> {
    if m1.0 == "brewery"@ && m2.0 == "name"@ {
        Some(BeerView { brewery: m1.1, name: m2.1 })
    } else if m1.0 == "name"@ && m2.0 == "brewery"@ {
        Some(BeerView { brewery: m2.1, name: m1.1 })
    } else {
        None
    }
}

/// The record that a whole body denotes: an object of exactly the two
/// members, with nothing but whitespace before or after, or nothing if the
/// body has any other shape.
pub open spec fn spec_parse_record(s: Seq<char>) -> Option<BeerView> {
    let i = spec_skip_ws(s, 0);
    if i < s.len() && s[i] == '{' {
        match spec_parse_member(s, i + 1) {
            None => None,
            Some((m1, j)) => {
                let j2 = spec_skip_ws(s, j);
                if j2 < s.len() && s[j2] == ',' {
                    match spec_parse_member(s, j2 + 1) {
                        None => None,
                        Some((m2, k)) => {
                            let k2 = spec_skip_ws(s, k);
                            if k2 < s.len() && s[k2] == '}' && spec_skip_ws(s, k2 + 1) == s.len() {
                                spec_fields_to_record(m1, m2)
                            } else {
                                None
                            }
                        },
                    }
                } else {
                    None
                }
            },
        }
    } else {
        None
    }
}

/// The hexadecimal digit for a value below sixteen.
pub open spec fn hex_digit(n: int) -> char {
    if n == 0 {
        '0'
    } else if n == 1 {
        '1'
    } else if n == 2 {
        '2'
    } else if n == 3 {
        '3'
    } else if n == 4 {
        '4'
    } else if n == 5 {
        '5'
    } else if n == 6 {
        '6'
    } else if n == 7 {
        '7'
    } else if n == 8 {
        '8'
    } else if n == 9 {
        '9'
    } else if n == 10 {
        'a'
    } else if n == 11 {
        'b'
    } else if n == 12 {
        'c'
    } else if n == 13 {
        'd'
    } else if n == 14 {
        'e'
    } else {
        'f'
    }
}

/// How one character of a field is written inside a string literal.
pub open spec fn spec_escape_char(c: char) -> Seq<char> {
    if c == '"' {
        seq!['\\', '"']
    } else if c == '\\' {
        seq!['\\', '\\']
    } else if (c as u32) < 32 {
        seq!['\\', 'u', '0', '0', hex_digit(c as u32 as int / 16), hex_digit(c as u32 as int % 16)]
    } else {
        seq![c]
    }
}

/// How a whole field is written inside a string literal.
pub open spec fn spec_escape(s: Seq<char>) -> Seq<char>
    decreases s.len(),
{
    if s.len() == 0 {
        Seq::empty()
    } else {
        spec_escape(s.drop_last()) + spec_escape_char(s.last())
    }
}

/// How one record is written.
pub open spec fn spec_encode_record(b: BeerView) -> Seq<char> {
    "{\"brewery\":\""@ + spec_escape(b.brewery) + "\",\"name\":\""@ + spec_escape(b.name) + "\"}"@
}

/// The comma-separated middle of an encoded list.
pub open spec fn spec_encode_items(l: Seq<BeerView>) -> Seq<char>
    decreases l.len(),
{
    if l.len() == 0 {
        Seq::empty()
    } else if l.len() == 1 {
        spec_encode_record(l[0])
    } else {
        spec_encode_items(l.drop_last()) + seq![','] + spec_encode_record(l.last())
    }
}

/// How a whole list of records is written.
pub open spec fn spec_encode_list(l: Seq<BeerView>) -> Seq<char> {
    seq!['['] + spec_encode_items(l) + seq![']']
}

/// A store with nothing in it lists as the empty JSON array.
pub proof fn lemma_encode_empty()
    ensures
        spec_encode_list(Seq::<BeerView>::empty()) == "[]"@,
{
    reveal_strlit("[]");
    assert(seq!['['] + spec_encode_items(Seq::<BeerView>::empty()) + seq![']'] =~= "[]"@);
}

// ---------------------------------------------------------------------------
// Executable parser.
// ---------------------------------------------------------------------------

/// Relies on String::push: appends the given character at the end.
#[verifier::external_body]
fn push_char(s: &mut String, c: char)
    ensures
        final(s)@ == old(s)@.push(c),
{
    s.push(c);
}

/// Relies on char::from_u32: every value outside the surrogate range and at
/// most 0x10FFFF is the code point of exactly one character, and that
/// character is returned.
#[verifier::external_body]
fn char_from_code(v: u32) -> (r: char)
    requires
        v < 0xD800 || (0xE000 <= v && v <= 0x10FFFF),
    ensures
        r as u32 == v,
{
    char::from_u32(v).unwrap_or(' ')
}

fn hex_digit_val(c: char) -> (r: Option<u32>)
    ensures
        match r {
            Some(v) => is_hex_digit(c) && v as int == hex_val(c),
            None => !is_hex_digit(c),
        },
{
    let u = c as u32;
    if 48 <= u && u <= 57 {
        Some(u - 48)
    } else if 97 <= u && u <= 102 {
        Some(u - 87)
    } else if 65 <= u && u <= 70 {
        Some(u - 55)
    } else {
        None
    }
}

fn read_hex4(s: &str, n: usize, i: usize) -> (r: Option<u32>)
    requires
        n == s@.len(),
        i <= n,
    ensures
        match r {
            Some(v) => has_hex4(s@, i as int) && v as int == spec_hex4(s@, i as int) && v
                <= 0xFFFF,
            None => !has_hex4(s@, i as int),
        },
{
    if n - i < 4 {
        return None;
    }
    let d0 = match hex_digit_val(s.get_char(i)) {
        Some(v) => v,
        None => {
            return None;
        },
    };
    let d1 = match hex_digit_val(s.get_char(i + 1)) {
        Some(v) => v,
        None => {
            return None;
        },
    };
    let d2 = match hex_digit_val(s.get_char(i + 2)) {
        Some(v) => v,
        None => {
            return None;
        },
    };
    let d3 = match hex_digit_val(s.get_char(i + 3)) {
        Some(v) => v,
        None => {
            return None;
        },
    };
    Some(d0 * 4096 + d1 * 256 + d2 * 16 + d3)
}

fn json_ws(c: char) -> (r: bool)
    ensures
        r == is_json_ws(c),
{
    c == ' ' || c == '\t' || c == '\n' || c == '\r'
}

fn skip_ws_at(s: &str, n: usize, i: usize) -> (r: usize)
    requires
        n == s@.len(),
        i <= n,
    ensures
        r == spec_skip_ws(s@, i as int),
        i <= r <= n,
{
    let mut j = i;
    while j < n
        invariant
            n == s@.len(),
            i <= j <= n,
            spec_skip_ws(s@, i as int) == spec_skip_ws(s@, j as int),
        decreases n - j,
    {
        let c = s.get_char(j);
        if !json_ws(c) {
            return j;
        }
        j = j + 1;
    }
    j
}

fn unescape(c: char) -> (r: Option<char>)
    ensures
        r == spec_unescape(c),
{
    if c == '"' {
        Some('"')
    } else if c == '\\' {
        Some('\\')
    } else if c == '/' {
        Some('/')
    } else if c == 'b' {
        Some('\u{0008}')
    } else if c == 'f' {
        Some('\u{000C}')
    } else if c == 'n' {
        Some('\n')
    } else if c == 'r' {
        Some('\r')
    } else if c == 't' {
        Some('\t')
    } else {
        None
    }
}

fn parse_string_at(s: &str, n: usize, i: usize) -> (r: Option<(String, usize)>)
    requires
        n == s@.len(),
        i <= n,
    ensures
        match r {
            Some(p) => spec_parse_string(s@, i as int) == Some((p.0@, p.1 as int)) && p.1 <= n,
            None => spec_parse_string(s@, i as int) is None,
        },
{
    if i >= n {
        return None;
    }
    let c0 = s.get_char(i);
    if c0 != '"' {
        return None;
    }
    let mut acc = String::new();
    let mut j = i + 1;
    loop
        invariant
            n == s@.len(),
            i + 1 <= j <= n,
            spec_parse_string(s@, i as int) == spec_parse_string_body(s@, j as int, acc@),
        decreases n - j,
    {
        if j >= n {
            return None;
        }
        let c = s.get_char(j);
        if c == '"' {
            return Some((acc, j + 1));
        }
        if c == '\\' {
            if j + 1 >= n {
                return None;
            }
            let e = s.get_char(j + 1);
            if e == 'u' {
                match read_hex4(s, n, j + 2) {
                    None => {
                        return None;
                    },
                    Some(v) => {
                        if v < 0xD800 || 0xE000 <= v {
                            let u = char_from_code(v);
                            proof {
                                assert(code_to_char(v as int) as u32 == v);
                                assert(u == code_to_char(v as int));
                            }
                            push_char(&mut acc, u);
                            j = j + 6;
                        } else if v < 0xDC00 {
                            if n - j < 8 {
                                return None;
                            }
                            let b1 = s.get_char(j + 6);
                            let b2 = s.get_char(j + 7);
                            if b1 != '\\' || b2 != 'u' {
                                return None;
                            }
                            match read_hex4(s, n, j + 8) {
                                None => {
                                    return None;
                                },
                                Some(w) => {
                                    if w < 0xDC00 || 0xE000 <= w {
                                        return None;
                                    }
                                    let cp = 0x10000 + (v - 0xD800) * 0x400 + (w - 0xDC00);
                                    let u = char_from_code(cp);
                                    proof {
                                        assert(code_to_char(cp as int) as u32 == cp);
                                        assert(u == code_to_char(cp as int));
                                    }
                                    push_char(&mut acc, u);
                                    j = j + 12;
                                },
                            }
                        } else {
                            return None;
                        }
                    },
                }
            } else {
                match unescape(e) {
                    None => {
                        return None;
                    },
                    Some(u) => {
                        push_char(&mut acc, u);
                        j = j + 2;
                    },
                }
            }
        } else if (c as u32) < 32 {
            return None;
        } else {
            push_char(&mut acc, c);
            j = j + 1;
        }
    }
}

fn parse_member_at(s: &str, n: usize, i: usize) -> (r: Option<((String, String), usize)>)
    requires
        n == s@.len(),
        i <= n,
    ensures
        match r {
            Some(p) => spec_parse_member(s@, i as int) == Some((((p.0).0@, (p.0).1@), p.1 as int))
                && p.1 <= n,
            None => spec_parse_member(s@, i as int) is None,
        },
{
    let j = skip_ws_at(s, n, i);
    match parse_string_at(s, n, j) {
        None => None,
        Some((key, k)) => {
            let k2 = skip_ws_at(s, n, k);
            if k2 >= n {
                return None;
            }
            let c = s.get_char(k2);
            if c != ':' {
                return None;
            }
            let k3 = skip_ws_at(s, n, k2 + 1);
            match parse_string_at(s, n, k3) {
                None => None,
                Some((val, m)) => Some(((key, val), m)),
            }
        },
    }
}

fn fields_to_beer(k1: String, v1: String, k2: String, v2: String) -> (r: Option<Beer>)
    ensures
        match r {
            Some(b) => spec_fields_to_record((k1@, v1@), (k2@, v2@)) == Some(b@),
            None => spec_fields_to_record((k1@, v1@), (k2@, v2@)) is None,
        },
{
    let brewery_key = String::from_str("brewery");
    let name_key = String::from_str("name");
    if k1 == brewery_key && k2 == name_key {
        Some(Beer::new(v1, v2))
    } else if k1 == name_key && k2 == brewery_key {
        Some(Beer::new(v2, v1))
    } else {
        None
    }
}

/// The record that a request body carries, or nothing when the body does not
/// have the record shape: exactly the object spelled out by
/// `spec_parse_record`, whose fields become the record's fields.
pub fn parse_record(s: &str) -> (r: Option<Beer>)
    ensures
        match r {
            Some(b) => spec_parse_record(s@) == Some(b@),
            None => spec_parse_record(s@) is None,
        },
{
    let n = s.unicode_len();
    let i = skip_ws_at(s, n, 0);
    if i >= n {
        return None;
    }
    let c = s.get_char(i);
    if c != '{' {
        return None;
    }
    match parse_member_at(s, n, i + 1) {
        None => None,
        Some((m1, j)) => {
            let j2 = skip_ws_at(s, n, j);
            if j2 >= n {
                return None;
            }
            let c2 = s.get_char(j2);
            if c2 != ',' {
                return None;
            }
            match parse_member_at(s, n, j2 + 1) {
                None => None,
                Some((m2, k)) => {
                    let k2 = skip_ws_at(s, n, k);
                    if k2 >= n {
                        return None;
                    }
                    let c3 = s.get_char(k2);
                    if c3 != '}' {
                        return None;
                    }
                    let e = skip_ws_at(s, n, k2 + 1);
                    if e != n {
                        return None;
                    }
                    let (key1, val1) = m1;
                    let (key2, val2) = m2;
                    fields_to_beer(key1, val1, key2, val2)
                },
            }
        },
    }
}

// ---------------------------------------------------------------------------
// Executable encoder.
// ---------------------------------------------------------------------------

fn hex_digit_char(d: u32) -> (r: char)
    requires
        d < 16,
    ensures
        r == hex_digit(d as int),
{
    if d == 0 {
        '0'
    } else if d == 1 {
        '1'
    } else if d == 2 {
        '2'
    } else if d == 3 {
        '3'
    } else if d == 4 {
        '4'
    } else if d == 5 {
        '5'
    } else if d == 6 {
        '6'
    } else if d == 7 {
        '7'
    } else if d == 8 {
        '8'
    } else if d == 9 {
        '9'
    } else if d == 10 {
        'a'
    } else if d == 11 {
        'b'
    } else if d == 12 {
        'c'
    } else if d == 13 {
        'd'
    } else if d == 14 {
        'e'
    } else {
        'f'
    }
}

fn escape_char_into(out: &mut String, c: char)
    ensures
        final(out)@ == old(out)@ + spec_escape_char(c),
{
    if c == '"' {
        push_char(out, '\\');
        push_char(out, '"');
        proof {
            assert(out@ =~= old(out)@ + spec_escape_char(c));
        }
    } else if c == '\\' {
        push_char(out, '\\');
        push_char(out, '\\');
        proof {
            assert(out@ =~= old(out)@ + spec_escape_char(c));
        }
    } else {
        let v = c as u32;
        if v < 32 {
            push_char(out, '\\');
            push_char(out, 'u');
            push_char(out, '0');
            push_char(out, '0');
            push_char(out, hex_digit_char(v / 16));
            push_char(out, hex_digit_char(v % 16));
            proof {
                assert(out@ =~= old(out)@ + spec_escape_char(c));
            }
        } else {
            push_char(out, c);
            proof {
                assert(out@ =~= old(out)@ + spec_escape_char(c));
            }
        }
    }
}

fn append_escaped(out: &mut String, s: &str)
    ensures
        final(out)@ == old(out)@ + spec_escape(s@),
{
    let n = s.unicode_len();
    let mut i: usize = 0;
    while i < n
        invariant
            n == s@.len(),
            i <= n,
            out@ == old(out)@ + spec_escape(s@.subrange(0, i as int)),
        decreases n - i,
    {
        let c = s.get_char(i);
        escape_char_into(out, c);
        proof {
            let pre = s@.subrange(0, i as int);
            let cur = s@.subrange(0, i + 1);
            assert(cur.drop_last() =~= pre);
            assert(cur.last() == s@[i as int]);
            assert(out@ =~= old(out)@ + spec_escape(cur));
        }
        i = i + 1;
    }
    proof {
        assert(s@.subrange(0, n as int) =~= s@);
    }
}

/// Write one record onto the end of `out`, exactly as `spec_encode_record`
/// spells it.
fn encode_record_into(out: &mut String, b: &Beer)
    ensures
        final(out)@ == old(out)@ + spec_encode_record(b@),
{
    out.append("{\"brewery\":\"");
    append_escaped(out, b.brewery.as_str());
    out.append("\",\"name\":\"");
    append_escaped(out, b.name.as_str());
    out.append("\"}");
    proof {
        assert(out@ =~= old(out)@ + spec_encode_record(b@));
    }
}

/// The body of a listing response: the current contents of the store as a
/// JSON array, in the store's own order.
pub fn encode_records(store: &crate::store::Store) -> (r: String)
    ensures
        r@ == spec_encode_list(store@),
{
    let n = store.len();
    let mut out = String::new();
    push_char(&mut out, '[');
    let mut i: usize = 0;
    while i < n
        invariant
            n == store@.len(),
            i <= n,
            out@ == seq!['['] + spec_encode_items(store@.subrange(0, i as int)),
        decreases n - i,
    {
        if i > 0 {
            push_char(&mut out, ',');
        }
        encode_record_into(&mut out, store.get(i));
        proof {
            let pre = store@.subrange(0, i as int);
            let cur = store@.subrange(0, i + 1);
            assert(cur.drop_last() =~= pre);
            assert(cur.last() == store@[i as int]);
            assert(out@ =~= seq!['['] + spec_encode_items(cur));
        }
        i = i + 1;
    }
    push_char(&mut out, ']');
    proof {
        assert(store@.subrange(0, n as int) =~= store@);
        assert(out@ =~= spec_encode_list(store@));
    }
    out
}

} // verus!
