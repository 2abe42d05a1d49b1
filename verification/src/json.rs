//! The JSON documents the sidecar is stored as: a document model, two
//! writers (compact and pretty-printed), and a whitespace-tolerant
//! parser, each verified against a mathematical mirror.
//!
//! The accepted dialect: numbers are integers — the sidecar schema has
//! no fractions, so a document carrying a fraction or exponent anywhere
//! is rejected as malformed; `\uXXXX` escapes name any non-surrogate
//! code point a four-digit escape can express (surrogate pairs are not
//! combined); of duplicate object keys the first is read; unknown
//! members are ignored by the schema layer above.

use vstd::prelude::*;

use crate::numbers::{dec_digits, digit_val, digits_val, is_digit};

verus! {

/// One JSON value.
#[derive(Debug, PartialEq, Eq)]
pub enum JsonValue {
    /// `null`.
    Null,
    /// `true` or `false`.
    Bool(bool),
    /// An integer: sign and magnitude.
    Num { neg: bool, mag: u64 },
    /// A string, already unescaped.
    Str(String),
    /// An array.
    Arr(Vec<JsonValue>),
    /// An object: its members in document order.
    Obj(Vec<JsonMember>),
}

/// One member of a JSON object.
#[derive(Debug, PartialEq, Eq)]
pub struct JsonMember {
    pub key: String,
    pub value: JsonValue,
}

/// Abstract value of a [`JsonValue`].
pub ghost enum JsonView {
    Null,
    Bool { b: bool },
    Num { neg: bool, mag: u64 },
    Str { s: Seq<char> },
    Arr { items: Seq<JsonView> },
    Obj { members: Seq<(Seq<char>, JsonView)> },
}

/// Abstract value of a [`JsonValue`].
pub open spec fn json_view(j: JsonValue) -> JsonView
    decreases j,
{
    match j {
        JsonValue::Null => JsonView::Null,
        JsonValue::Bool(b) => JsonView::Bool { b },
        JsonValue::Num { neg, mag } => JsonView::Num { neg, mag },
        JsonValue::Str(s) => JsonView::Str { s: s@ },
        JsonValue::Arr(vs) => JsonView::Arr { items: json_views(vs@) },
        JsonValue::Obj(ms) => JsonView::Obj { members: member_views(ms@) },
    }
}

/// Abstract values of a list of JSON values.
pub open spec fn json_views(vs: Seq<JsonValue>) -> Seq<JsonView>
    decreases vs,
{
    if vs.len() == 0 {
        Seq::empty()
    } else {
        json_views(vs.drop_last()).push(json_view(vs.last()))
    }
}

/// Abstract values of a list of object members.
pub open spec fn member_views(ms: Seq<JsonMember>) -> Seq<(Seq<char>, JsonView)>
    decreases ms,
{
    if ms.len() == 0 {
        Seq::empty()
    } else {
        member_views(ms.drop_last()).push(
            (ms.last().key@, json_view(ms.last().value)),
        )
    }
}

/// The digit of a hexadecimal value below 16, lower case.
pub open spec fn hex_digit(d: int) -> char {
    if d < 10 {
        crate::numbers::digit_char(d)
    } else if d == 10 {
        'a'
    } else if d == 11 {
        'b'
    } else if d == 12 {
        'c'
    } else if d == 13 {
        'd'
    } else if d == 14 {
        'e'
    } else {
        'f'
    }
}

/// How one character of a string is written: quotes and backslashes are
/// escaped, control characters take a unicode escape, everything else
/// stands as itself.
pub open spec fn esc_char(c: char) -> Seq<char> {
    if c == '"' {
        seq!['\\', '"']
    } else if c == '\\' {
        seq!['\\', '\\']
    } else if (c as int) < 32 {
        seq!['\\', 'u', '0', '0', hex_digit(c as int / 16), hex_digit(c as int % 16)]
    } else {
        seq![c]
    }
}

/// How a string's characters are written, escaped, without the
/// surrounding quotes.
pub open spec fn ser_string_body(s: Seq<char>) -> Seq<char>
    decreases s.len(),
{
    if s.len() == 0 {
        Seq::empty()
    } else {
        ser_string_body(s.drop_last()) + esc_char(s.last())
    }
}

/// How a string is written: quoted and escaped.
pub open spec fn ser_string(s: Seq<char>) -> Seq<char> {
    seq!['"'] + ser_string_body(s) + seq!['"']
}

/// How a number is written: a minus sign for a negative value, then the
/// decimal digits.
pub open spec fn ser_num(neg: bool, mag: u64) -> Seq<char> {
    if neg && mag > 0 {
        seq!['-'] + dec_digits(mag as nat)
    } else {
        dec_digits(mag as nat)
    }
}

/// How a value is written.
pub open spec fn ser_value(j: JsonView) -> Seq<char>
    decreases j,
{
    match j {
        JsonView::Null => "null"@,
        JsonView::Bool { b } => if b {
            "true"@
        } else {
            "false"@
        },
        JsonView::Num { neg, mag } => ser_num(neg, mag),
        JsonView::Str { s } => ser_string(s),
        JsonView::Arr { items } => seq!['['] + ser_items(items) + seq![']'],
        JsonView::Obj { members } => seq!['{'] + ser_members(members) + seq!['}'],
    }
}

/// How an array's elements are written, separated by commas.
pub open spec fn ser_items(items: Seq<JsonView>) -> Seq<char>
    decreases items,
{
    if items.len() == 0 {
        Seq::empty()
    } else if items.len() == 1 {
        ser_value(items.last())
    } else {
        ser_items(items.drop_last()) + seq![','] + ser_value(items.last())
    }
}

/// How an object's members are written, separated by commas.
pub open spec fn ser_members(members: Seq<(Seq<char>, JsonView)>) -> Seq<char>
    decreases members,
{
    if members.len() == 0 {
        Seq::empty()
    } else if members.len() == 1 {
        ser_string(members.last().0) + seq![':'] + ser_value(members.last().1)
    } else {
        ser_members(members.drop_last()) + seq![','] + ser_string(members.last().0)
            + seq![':'] + ser_value(members.last().1)
    }
}

/// How one member is written: quoted key, colon, value.
pub open spec fn ser_member(m: (Seq<char>, JsonView)) -> Seq<char> {
    ser_string(m.0) + seq![':'] + ser_value(m.1)
}

/// The lowest non-control character: characters below it must be
/// escaped inside a JSON string.
pub const LOWEST_PLAIN_CHAR: char = ' ';

/// The JSON whitespace characters.
pub open spec fn is_ws(c: char) -> bool {
    c == ' ' || c == '\n' || c == '\t' || c == '\r'
}

/// First position at or after `i` that does not hold a digit.
pub open spec fn digits_end(s: Seq<char>, i: int) -> int
    decreases s.len() - i when 0 <= i <= s.len()
{
    if i < s.len() && is_digit(s[i]) {
        digits_end(s, i + 1)
    } else {
        i
    }
}

/// Reads a number at `i`: an optional minus sign, then digits, not
/// followed by a fraction or exponent, with a magnitude that fits 64
/// bits.
pub open spec fn sp_number(s: Seq<char>, i: int) -> Option<(JsonView, int)> {
    let neg = i < s.len() && s[i] == '-';
    let d0 = if neg {
        i + 1
    } else {
        i
    };
    let e = digits_end(s, d0);
    if !(0 <= d0 <= s.len()) {
        None
    } else if e == d0 {
        None
    } else if e < s.len() && (s[e] == '.' || s[e] == 'e' || s[e] == 'E') {
        None
    } else if digits_val(s.subrange(d0, e)) > u64::MAX {
        None
    } else {
        Some((JsonView::Num { neg, mag: digits_val(s.subrange(d0, e)) as u64 }, e))
    }
}

/// The character an escape letter stands for, if the letter is a legal
/// simple escape.
pub open spec fn unescape_simple(c: char) -> Option<char> {
    if c == '"' {
        Some('"')
    } else if c == '\\' {
        Some('\\')
    } else if c == '/' {
        Some('/')
    } else if c == 'n' {
        Some('\n')
    } else if c == 't' {
        Some('\t')
    } else if c == 'r' {
        Some('\r')
    } else if c == 'b' {
        Some('\u{0008}')
    } else if c == 'f' {
        Some('\u{000c}')
    } else {
        None
    }
}

/// The value of a hexadecimal digit character, if it is one.
pub open spec fn hex_val(c: char) -> Option<int> {
    if is_digit(c) {
        Some(digit_val(c))
    } else if 'a' <= c && c <= 'f' {
        Some(c as int - 'a' as int + 10)
    } else if 'A' <= c && c <= 'F' {
        Some(c as int - 'A' as int + 10)
    } else {
        None
    }
}

/// Reads the body of a string from `i` (just past the opening quote) to
/// its closing quote: escapes are decoded, raw control characters are
/// refused, and a unicode escape is accepted for every non-surrogate
/// code point a four-digit escape can name.
pub open spec fn sp_string_body(s: Seq<char>, i: int) -> Option<(Seq<char>, int)>
    decreases s.len() - i when 0 <= i
{
    if i >= s.len() {
        None
    } else if s[i] == '"' {
        Some((Seq::empty(), i + 1))
    } else if s[i] == '\\' {
        if i + 1 >= s.len() {
            None
        } else if s[i + 1] == 'u' {
            if i + 6 > s.len() {
                None
            } else {
                match (hex_val(s[i + 2]), hex_val(s[i + 3]), hex_val(s[i + 4]), hex_val(
                    s[i + 5],
                )) {
                    (Some(h0), Some(h1), Some(h2), Some(h3)) => {
                        let code = h0 * 4096 + h1 * 256 + h2 * 16 + h3;
                        if code < 0xD800 || 0xE000 <= code {
                            match sp_string_body(s, i + 6) {
                                Some((rest, k)) => Some(
                                    (seq![(code as u32) as char] + rest, k),
                                ),
                                None => None,
                            }
                        } else {
                            None
                        }
                    },
                    _ => None,
                }
            }
        } else {
            match unescape_simple(s[i + 1]) {
                Some(c) => match sp_string_body(s, i + 2) {
                    Some((rest, k)) => Some((seq![c] + rest, k)),
                    None => None,
                },
                None => None,
            }
        }
    } else if (s[i] as int) < 32 {
        None
    } else {
        match sp_string_body(s, i + 1) {
            Some((rest, k)) => Some((seq![s[i]] + rest, k)),
            None => None,
        }
    }
}

/// Reads one value at `i`, skipping leading whitespace.
pub open spec fn sp_value(s: Seq<char>, i: int) -> Option<(JsonView, int)>
    decreases s.len() - i, 0int when 0 <= i
{
    if i >= s.len() {
        None
    } else if is_ws(s[i]) {
        sp_value(s, i + 1)
    } else if s[i] == 'n' {
        if crate::strutil::occurs_at(s, "null"@, i) {
            Some((JsonView::Null, i + 4))
        } else {
            None
        }
    } else if s[i] == 't' {
        if crate::strutil::occurs_at(s, "true"@, i) {
            Some((JsonView::Bool { b: true }, i + 4))
        } else {
            None
        }
    } else if s[i] == 'f' {
        if crate::strutil::occurs_at(s, "false"@, i) {
            Some((JsonView::Bool { b: false }, i + 5))
        } else {
            None
        }
    } else if s[i] == '"' {
        match sp_string_body(s, i + 1) {
            Some((chars, k)) => Some((JsonView::Str { s: chars }, k)),
            None => None,
        }
    } else if s[i] == '[' {
        sp_array_first(s, i + 1)
    } else if s[i] == '{' {
        sp_members_first(s, i + 1)
    } else if s[i] == '-' || is_digit(s[i]) {
        sp_number(s, i)
    } else {
        None
    }
}

/// Reads the rest of an array just after `[`: whitespace, then either
/// `]` or the elements.
pub open spec fn sp_array_first(s: Seq<char>, i: int) -> Option<(JsonView, int)>
    decreases s.len() - i, 2int when 0 <= i
{
    if i >= s.len() {
        None
    } else if is_ws(s[i]) {
        sp_array_first(s, i + 1)
    } else if s[i] == ']' {
        Some((JsonView::Arr { items: Seq::empty() }, i + 1))
    } else {
        sp_array_items(s, i)
    }
}

/// Reads the elements of an array from the start of its next element.
pub open spec fn sp_array_items(s: Seq<char>, i: int) -> Option<(JsonView, int)>
    decreases s.len() - i, 1int when 0 <= i
{
    match sp_value(s, i) {
        None => None,
        Some((v, k)) => if k <= i || k > s.len() {
            None
        } else {
            match sp_array_rest(s, k) {
                None => None,
                Some((rest, e)) => match rest {
                    JsonView::Arr { items } => Some(
                        (JsonView::Arr { items: seq![v] + items }, e),
                    ),
                    _ => None,
                },
            }
        },
    }
}

/// After one array element: whitespace, then `,` and the next element,
/// or `]`.
pub open spec fn sp_array_rest(s: Seq<char>, i: int) -> Option<(JsonView, int)>
    decreases s.len() - i, 1int when 0 <= i
{
    if i >= s.len() {
        None
    } else if is_ws(s[i]) {
        sp_array_rest(s, i + 1)
    } else if s[i] == ']' {
        Some((JsonView::Arr { items: Seq::empty() }, i + 1))
    } else if s[i] == ',' {
        sp_array_items(s, i + 1)
    } else {
        None
    }
}

/// Reads the rest of an object just after `{`: whitespace, then either
/// `}` or the members.
pub open spec fn sp_members_first(s: Seq<char>, i: int) -> Option<(JsonView, int)>
    decreases s.len() - i, 2int when 0 <= i
{
    if i >= s.len() {
        None
    } else if is_ws(s[i]) {
        sp_members_first(s, i + 1)
    } else if s[i] == '}' {
        Some((JsonView::Obj { members: Seq::empty() }, i + 1))
    } else {
        sp_members_items(s, i)
    }
}

/// Reads the members of an object from the start of its next key.
pub open spec fn sp_members_items(s: Seq<char>, i: int) -> Option<(JsonView, int)>
    decreases s.len() - i, 1int when 0 <= i
{
    if i >= s.len() {
        None
    } else if is_ws(s[i]) {
        sp_members_items(s, i + 1)
    } else if s[i] != '"' {
        None
    } else {
        match sp_string_body(s, i + 1) {
            None => None,
            Some((key, k)) => if k <= i || k > s.len() {
                None
            } else {
                sp_member_value(s, k, key)
            },
        }
    }
}

/// After a member's key: whitespace, `:`, then its value and the rest
/// of the object.
pub open spec fn sp_member_value(s: Seq<char>, i: int, key: Seq<char>) -> Option<(JsonView, int)>
    decreases s.len() - i, 1int when 0 <= i
{
    if i >= s.len() {
        None
    } else if is_ws(s[i]) {
        sp_member_value(s, i + 1, key)
    } else if s[i] != ':' {
        None
    } else {
        match sp_value(s, i + 1) {
            None => None,
            Some((v, k)) => if k <= i || k > s.len() {
                None
            } else {
                match sp_members_rest(s, k) {
                    None => None,
                    Some((rest, e)) => match rest {
                        JsonView::Obj { members } => Some(
                            (JsonView::Obj { members: seq![(key, v)] + members }, e),
                        ),
                        _ => None,
                    },
                }
            },
        }
    }
}

/// After one member: whitespace, then `,` and the next member, or `}`.
pub open spec fn sp_members_rest(s: Seq<char>, i: int) -> Option<(JsonView, int)>
    decreases s.len() - i, 1int when 0 <= i
{
    if i >= s.len() {
        None
    } else if is_ws(s[i]) {
        sp_members_rest(s, i + 1)
    } else if s[i] == '}' {
        Some((JsonView::Obj { members: Seq::empty() }, i + 1))
    } else if s[i] == ',' {
        sp_members_items(s, i + 1)
    } else {
        None
    }
}

/// Reads a whole document: one value, with nothing but whitespace after
/// it.
pub open spec fn sp_document(s: Seq<char>) -> Option<JsonView> {
    match sp_value(s, 0) {
        None => None,
        Some((v, k)) => if only_ws_from(s, k) {
            Some(v)
        } else {
            None
        },
    }
}

/// Nothing but whitespace from `i` on.
pub open spec fn only_ws_from(s: Seq<char>, i: int) -> bool {
    forall|j: int| i <= j < s.len() ==> is_ws(#[trigger] s[j])
}

/// The abstract values of a list line up with the list, element by
/// element.
pub proof fn lemma_json_views_elts(vs: Seq<JsonValue>)
    ensures
        json_views(vs).len() == vs.len(),
        forall|i: int| 0 <= i < vs.len() ==> #[trigger] json_views(vs)[i] == json_view(vs[i]),
    decreases vs,
{
    if vs.len() > 0 {
        lemma_json_views_elts(vs.drop_last());
        assert(forall|i: int|
            0 <= i < vs.len() - 1 ==> #[trigger] vs[i] == vs.drop_last()[i]);
    }
}

/// The abstract values of a member list line up with the list, member
/// by member.
pub proof fn lemma_member_views_elts(ms: Seq<JsonMember>)
    ensures
        member_views(ms).len() == ms.len(),
        forall|i: int|
            0 <= i < ms.len() ==> #[trigger] member_views(ms)[i] == (
            ms[i].key@,
            json_view(ms[i].value),
            ),
    decreases ms,
{
    if ms.len() > 0 {
        lemma_member_views_elts(ms.drop_last());
        assert(forall|i: int|
            0 <= i < ms.len() - 1 ==> #[trigger] ms[i] == ms.drop_last()[i]);
    }
}

/// The digit character of a value below ten.
fn digit_char_exec(d: u64) -> (r: char)
    requires
        d < 10,
    ensures
        r == crate::numbers::digit_char(d as int),
{
    if d == 0 {
        '0'
    } else if d == 1 {
        '1'
    } else if d == 2 {
        '2'
    } else if d == 3 {
        '3'
    } else if d == 4 {
        '4'
    } else if d == 5 {
        '5'
    } else if d == 6 {
        '6'
    } else if d == 7 {
        '7'
    } else if d == 8 {
        '8'
    } else {
        '9'
    }
}

/// The hexadecimal digit character of a value below sixteen.
fn hex_digit_exec(d: u32) -> (r: char)
    requires
        d < 16,
    ensures
        r == hex_digit(d as int),
{
    if d < 10 {
        digit_char_exec(d as u64)
    } else if d == 10 {
        'a'
    } else if d == 11 {
        'b'
    } else if d == 12 {
        'c'
    } else if d == 13 {
        'd'
    } else if d == 14 {
        'e'
    } else {
        'f'
    }
}

/// Writes the decimal digits of `n`.
fn write_u64(n: u64, out: &mut Vec<char>)
    ensures
        final(out)@ == old(out)@ + dec_digits(n as nat),
    decreases n,
{
    if n < 10 {
        out.push(digit_char_exec(n));
        proof {
            assert(final(out)@ =~= old(out)@ + dec_digits(n as nat));
        }
    } else {
        write_u64(n / 10, out);
        out.push(digit_char_exec(n % 10));
        proof {
            assert(final(out)@ =~= old(out)@ + dec_digits(n as nat));
        }
    }
}

/// Writes the characters of `s`, escaped for a JSON string.
fn write_escaped(s: &str, out: &mut Vec<char>)
    ensures
        final(out)@ == old(out)@ + ser_string_body(s@),
{
    let n = s.unicode_len();
    let mut i: usize = 0;
    proof {
        assert(ser_string_body(s@.take(0)) =~= Seq::<char>::empty());
        assert(out@ =~= old(out)@ + ser_string_body(s@.take(0)));
    }
    while i < n
        invariant
            n == s@.len(),
            i <= n,
            out@ == old(out)@ + ser_string_body(s@.take(i as int)),
        decreases n - i,
    {
        let c = s.get_char(i);
        proof {
            assert(s@.take(i + 1).drop_last() =~= s@.take(i as int));
            assert(s@.take(i + 1).last() == c);
        }
        if c == '"' {
            out.push('\\');
            out.push('"');
        } else if c == '\\' {
            out.push('\\');
            out.push('\\');
        } else if (c as u32) < 32 {
            out.push('\\');
            out.push('u');
            out.push('0');
            out.push('0');
            out.push(hex_digit_exec((c as u32) / 16));
            out.push(hex_digit_exec((c as u32) % 16));
        } else {
            out.push(c);
        }
        i += 1;
        proof {
            assert(out@ =~= old(out)@ + ser_string_body(s@.take(i as int)));
        }
    }
    proof {
        assert(s@.take(n as int) =~= s@);
    }
}

/// Writes a string: quoted and escaped.
fn write_string(s: &str, out: &mut Vec<char>)
    ensures
        final(out)@ == old(out)@ + ser_string(s@),
{
    out.push('"');
    write_escaped(s, out);
    out.push('"');
    proof {
        assert(final(out)@ =~= old(out)@ + ser_string(s@));
    }
}

/// Writes one JSON value.
#[verifier::loop_isolation(false)]
pub fn write_value(j: &JsonValue, out: &mut Vec<char>)
    ensures
        final(out)@ == old(out)@ + ser_value(json_view(*j)),
    decreases *j,
{
    match j {
        JsonValue::Null => {
            out.push('n');
            out.push('u');
            out.push('l');
            out.push('l');
            proof {
                reveal_strlit("null");
                assert(final(out)@ =~= old(out)@ + "null"@);
            }
        },
        JsonValue::Bool(b) => {
            if *b {
                out.push('t');
                out.push('r');
                out.push('u');
                out.push('e');
                proof {
                    reveal_strlit("true");
                    assert(final(out)@ =~= old(out)@ + "true"@);
                }
            } else {
                out.push('f');
                out.push('a');
                out.push('l');
                out.push('s');
                out.push('e');
                proof {
                    reveal_strlit("false");
                    assert(final(out)@ =~= old(out)@ + "false"@);
                }
            }
        },
        JsonValue::Num { neg, mag } => {
            if *neg && *mag > 0 {
                out.push('-');
                write_u64(*mag, out);
                proof {
                    assert(final(out)@ =~= old(out)@ + ser_num(*neg, *mag));
                }
            } else {
                write_u64(*mag, out);
                proof {
                    assert(final(out)@ =~= old(out)@ + ser_num(*neg, *mag));
                }
            }
        },
        JsonValue::Str(st) => {
            write_string(st.as_str(), out);
        },
        JsonValue::Arr(vs) => {
            out.push('[');
            let ghost base = out@;
            let mut i: usize = 0;
            proof {
                lemma_json_views_elts(vs@);
                assert(ser_items(json_views(vs@).take(0)) =~= Seq::<char>::empty());
                assert(out@ =~= base + ser_items(json_views(vs@).take(0)));
            }
            while i < vs.len()
                invariant
                    i <= vs@.len(),
                    json_views(vs@).len() == vs@.len(),
                    forall|k: int|
                        0 <= k < vs@.len() ==> json_views(vs@)[k] == json_view(
                            #[trigger] vs@[k],
                        ),
                    out@ == base + ser_items(json_views(vs@).take(i as int)),
                decreases vs@.len() - i,
            {
                if i > 0 {
                    out.push(',');
                }
                write_value(&vs[i], out);
                i += 1;
                proof {
                    let views = json_views(vs@);
                    assert(views.take(i as int).drop_last() =~= views.take(i - 1));
                    assert(views.take(i as int).last() == views[i - 1]);
                    assert(out@ =~= base + ser_items(views.take(i as int)));
                }
            }
            out.push(']');
            proof {
                assert(json_views(vs@).take(vs@.len() as int) =~= json_views(vs@));
                assert(final(out)@ =~= old(out)@ + ser_value(json_view(*j)));
            }
        },
        JsonValue::Obj(ms) => {
            out.push('{');
            let ghost base = out@;
            let mut i: usize = 0;
            proof {
                lemma_member_views_elts(ms@);
                assert(ser_members(member_views(ms@).take(0)) =~= Seq::<char>::empty());
                assert(out@ =~= base + ser_members(member_views(ms@).take(0)));
            }
            while i < ms.len()
                invariant
                    i <= ms@.len(),
                    member_views(ms@).len() == ms@.len(),
                    forall|k: int|
                        0 <= k < ms@.len() ==> member_views(ms@)[k] == (
                        #[trigger] ms@[k].key@,
                        json_view(ms@[k].value),
                        ),
                    out@ == base + ser_members(member_views(ms@).take(i as int)),
                decreases ms@.len() - i,
            {
                if i > 0 {
                    out.push(',');
                }
                write_string(ms[i].key.as_str(), out);
                out.push(':');
                write_value(&ms[i].value, out);
                i += 1;
                proof {
                    let views = member_views(ms@);
                    assert(views.take(i as int).drop_last() =~= views.take(i - 1));
                    assert(views.take(i as int).last() == views[i - 1]);
                    assert(out@ =~= base + ser_members(views.take(i as int)));
                }
            }
            out.push('}');
            proof {
                assert(member_views(ms@).take(ms@.len() as int) =~= member_views(ms@));
                assert(final(out)@ =~= old(out)@ + ser_value(json_view(*j)));
            }
        },
    }
}

/// Writes one JSON value as a string.
pub fn value_to_string(j: &JsonValue) -> (r: String)
    ensures
        r@ == ser_value(json_view(*j)),
{
    let mut out: Vec<char> = Vec::new();
    write_value(j, &mut out);
    proof {
        assert(out@ =~= ser_value(json_view(*j)));
    }
    crate::strutil::chars_to_string(&out)
}

/// Relies on `char::from_u32`: returns the character of a unicode
/// scalar value — `Some` exactly for the values below the surrogate
/// range or above it and at most `0x10FFFF` — and `None` otherwise.
pub assume_specification[ char::from_u32 ](v: u32) -> (r: Option<char>)
    ensures
        (v < 0xD800 || (0xE000 <= v && v <= 0x10FFFF)) ==> r == Some((v as char)),
        !(v < 0xD800 || (0xE000 <= v && v <= 0x10FFFF)) ==> r is None,
;

/// Decides whether `c` is JSON whitespace.
fn is_ws_exec(c: char) -> (r: bool)
    ensures
        r == is_ws(c),
{
    c == ' ' || c == '\n' || c == '\t' || c == '\r'
}

/// The value of a hexadecimal digit character, if it is one.
fn hex_val_exec(c: char) -> (r: Option<u32>)
    ensures
        match r {
            Some(v) => hex_val(c) == Some(v as int) && v < 16,
            None => hex_val(c) is None,
        },
{
    if '0' <= c && c <= '9' {
        Some(c as u32 - '0' as u32)
    } else if 'a' <= c && c <= 'f' {
        Some(c as u32 - 'a' as u32 + 10)
    } else if 'A' <= c && c <= 'F' {
        Some(c as u32 - 'A' as u32 + 10)
    } else {
        None
    }
}

/// The character an escape letter stands for, if it is a legal simple
/// escape.
fn unescape_simple_exec(c: char) -> (r: Option<char>)
    ensures
        r == unescape_simple(c),
{
    if c == '"' {
        Some('"')
    } else if c == '\\' {
        Some('\\')
    } else if c == '/' {
        Some('/')
    } else if c == 'n' {
        Some('\n')
    } else if c == 't' {
        Some('\t')
    } else if c == 'r' {
        Some('\r')
    } else if c == 'b' {
        Some('\u{0008}')
    } else if c == 'f' {
        Some('\u{000c}')
    } else {
        None
    }
}

/// Reads the body of a string from `i`, just past the opening quote.
fn parse_string_body(s: &Vec<char>, i: usize) -> (r: Option<(Vec<char>, usize)>)
    ensures
        match r {
            Some(p) => sp_string_body(s@, i as int) == Some((p.0@, p.1 as int)) && i < p.1
                <= s@.len(),
            None => sp_string_body(s@, i as int) is None,
        },
    decreases s@.len() - i,
{
    if i >= s.len() {
        return None;
    }
    let c = s[i];
    if c == '"' {
        let empty: Vec<char> = Vec::new();
        proof {
            assert(empty@ =~= Seq::<char>::empty());
        }
        return Some((empty, i + 1));
    }
    if c == '\\' {
        if i + 1 >= s.len() {
            return None;
        }
        let e = s[i + 1];
        if e == 'u' {
            if s.len() < 6 || i > s.len() - 6 {
                return None;
            }
            let h0 = hex_val_exec(s[i + 2]);
            let h1 = hex_val_exec(s[i + 3]);
            let h2 = hex_val_exec(s[i + 4]);
            let h3 = hex_val_exec(s[i + 5]);
            match (h0, h1, h2, h3) {
                (Some(v0), Some(v1), Some(v2), Some(v3)) => {
                    let code: u32 = v0 * 4096 + v1 * 256 + v2 * 16 + v3;
                    match char::from_u32(code) {
                        Some(decoded) => match parse_string_body(s, i + 6) {
                            Some(mut p) => {
                                let ghost before = p.0@;
                                p.0.insert(0, decoded);
                                proof {
                                    assert(p.0@ =~= seq![decoded] + before);
                                }
                                Some((p.0, p.1))
                            },
                            None => None,
                        },
                        None => None,
                    }
                },
                _ => None,
            }
        } else {
            match unescape_simple_exec(e) {
                Some(c2) => match parse_string_body(s, i + 2) {
                    Some(mut p) => {
                        let ghost before = p.0@;
                        p.0.insert(0, c2);
                        proof {
                            assert(p.0@ =~= seq![c2] + before);
                        }
                        Some((p.0, p.1))
                    },
                    None => None,
                },
                None => None,
            }
        }
    } else if c < LOWEST_PLAIN_CHAR {
        None
    } else {
        match parse_string_body(s, i + 1) {
            Some(mut p) => {
                let ghost before = p.0@;
                p.0.insert(0, c);
                proof {
                    assert(p.0@ =~= seq![c] + before);
                }
                Some((p.0, p.1))
            },
            None => None,
        }
    }
}

/// Every character before the end of a digit run is a digit, and the
/// end lies within bounds.
proof fn lemma_digits_end_all(s: Seq<char>, i: int)
    requires
        0 <= i <= s.len(),
    ensures
        i <= digits_end(s, i) <= s.len(),
        forall|j: int| i <= j < digits_end(s, i) ==> is_digit(#[trigger] s[j]),
    decreases s.len() - i,
{
    if i < s.len() && is_digit(s[i]) {
        lemma_digits_end_all(s, i + 1);
    }
}

/// Reads a number at `i`.
fn parse_number(s: &Vec<char>, i: usize) -> (r: Option<(JsonValue, usize)>)
    requires
        i < s@.len(),
    ensures
        match r {
            Some(p) => sp_number(s@, i as int) == Some((json_view(p.0), p.1 as int)) && i < p.1
                <= s@.len(),
            None => sp_number(s@, i as int) is None,
        },
{
    proof {
        assert(i < s.len());
    }
    let neg = s[i] == '-';
    let d0 = if neg {
        i + 1
    } else {
        i
    };
    if d0 >= s.len() {
        proof {
            lemma_digits_end_all(s@, d0 as int);
        }
        return None;
    }
    let mut e = d0;
    while e < s.len() && is_digit_run_step(s, e)
        invariant
            d0 <= e <= s.len(),
            digits_end(s@, d0 as int) == digits_end(s@, e as int),
        decreases s@.len() - e,
    {
        e += 1;
    }
    proof {
        assert(digits_end(s@, d0 as int) == e as int);
        lemma_digits_end_all(s@, d0 as int);
    }
    if e == d0 {
        return None;
    }
    if e < s.len() {
        let nx = s[e];
        if nx == '.' || nx == 'e' || nx == 'E' {
            return None;
        }
    }
    let ghost sub = s@.subrange(d0 as int, e as int);
    proof {
        assert(crate::numbers::all_digits(sub));
    }
    let ghost spn = sp_number(s@, i as int);
    proof {
        assert(digits_val(sub) > u64::MAX ==> spn is None);
        assert(digits_val(sub) <= u64::MAX ==> spn == Some(
            (JsonView::Num { neg, mag: digits_val(sub) as u64 }, e as int),
        ));
    }
    let mut val: u64 = 0;
    let mut j = d0;
    while j < e
        invariant
            d0 <= j <= e <= s.len(),
            i < s.len(),
            sub == s@.subrange(d0 as int, e as int),
            crate::numbers::all_digits(sub),
            forall|k: int| d0 <= k < e ==> is_digit(#[trigger] s@[k]),
            val == digits_val(sub.take(j - d0)),
            spn == sp_number(s@, i as int),
            digits_val(sub) > u64::MAX ==> spn is None,
            digits_val(sub) <= u64::MAX ==> spn == Some(
                (JsonView::Num { neg, mag: digits_val(sub) as u64 }, e as int),
            ),
        decreases e - j,
    {
        let c = s[j];
        let d: u64 = (c as u32 as u64) - ('0' as u32 as u64);
        proof {
            assert(sub[j - d0] == c);
            assert(sub.take(j + 1 - d0).drop_last() =~= sub.take(j - d0));
            assert(sub.take(j + 1 - d0).last() == c);
            crate::numbers::lemma_digits_val_prefix(sub, j + 1 - d0);
        }
        let m = match val.checked_mul(10) {
            Some(m) => m,
            None => {
                proof {
                    assert(digits_val(sub.take(j + 1 - d0)) > u64::MAX);
                    assert(digits_val(sub) > u64::MAX);
                }
                return None;
            },
        };
        let a = match m.checked_add(d) {
            Some(a) => a,
            None => {
                proof {
                    assert(digits_val(sub.take(j + 1 - d0)) > u64::MAX);
                    assert(digits_val(sub) > u64::MAX);
                }
                return None;
            },
        };
        val = a;
        j += 1;
    }
    proof {
        assert(sub.take(e - d0) =~= sub);
    }
    Some((JsonValue::Num { neg, mag: val }, e))
}

/// One step of a digit run: the character at `e` is a digit.
fn is_digit_run_step(s: &Vec<char>, e: usize) -> (r: bool)
    requires
        e < s@.len(),
    ensures
        r == is_digit(s@[e as int]),
        r ==> digits_end(s@, e as int) == digits_end(s@, e + 1),
        !r ==> digits_end(s@, e as int) == e as int,
{
    crate::numbers::is_digit_exec(s[e])
}

/// Reads one value at `i`, skipping leading whitespace.
pub fn parse_value(s: &Vec<char>, i: usize) -> (r: Option<(JsonValue, usize)>)
    ensures
        match r {
            Some(p) => sp_value(s@, i as int) == Some((json_view(p.0), p.1 as int)) && i < p.1
                <= s@.len(),
            None => sp_value(s@, i as int) is None,
        },
    decreases s@.len() - i, 0int,
{
    if i >= s.len() {
        return None;
    }
    let c = s[i];
    if is_ws_exec(c) {
        return parse_value(s, i + 1);
    }
    if c == 'n' {
        proof {
            reveal_strlit("null");
        }
        if s.len() >= 4 && i <= s.len() - 4 {
            if crate::strutil::occurs_at_from(s, "null", i) {
                return Some((JsonValue::Null, i + 4));
            }
        }
        proof {
            assert(!crate::strutil::occurs_at(s@, "null"@, i as int));
        }
        return None;
    }
    if c == 't' {
        proof {
            reveal_strlit("true");
        }
        if s.len() >= 4 && i <= s.len() - 4 {
            if crate::strutil::occurs_at_from(s, "true", i) {
                return Some((JsonValue::Bool(true), i + 4));
            }
        }
        proof {
            assert(!crate::strutil::occurs_at(s@, "true"@, i as int));
        }
        return None;
    }
    if c == 'f' {
        proof {
            reveal_strlit("false");
        }
        if s.len() >= 5 && i <= s.len() - 5 {
            if crate::strutil::occurs_at_from(s, "false", i) {
                return Some((JsonValue::Bool(false), i + 5));
            }
        }
        proof {
            assert(!crate::strutil::occurs_at(s@, "false"@, i as int));
        }
        return None;
    }
    if c == '"' {
        return match parse_string_body(s, i + 1) {
            Some(p) => Some((JsonValue::Str(crate::strutil::chars_to_string(&p.0)), p.1)),
            None => None,
        };
    }
    if c == '[' {
        return match parse_array_first(s, i + 1) {
            Some(p) => Some((JsonValue::Arr(p.0), p.1)),
            None => None,
        };
    }
    if c == '{' {
        return match parse_members_first(s, i + 1) {
            Some(p) => Some((JsonValue::Obj(p.0), p.1)),
            None => None,
        };
    }
    if c == '-' || crate::numbers::is_digit_exec(c) {
        return parse_number(s, i);
    }
    None
}

/// Reads the rest of an array just after `[`.
fn parse_array_first(s: &Vec<char>, i: usize) -> (r: Option<(Vec<JsonValue>, usize)>)
    ensures
        match r {
            Some(p) => sp_array_first(s@, i as int) == Some(
                (JsonView::Arr { items: json_views(p.0@) }, p.1 as int),
            ) && i < p.1 <= s@.len(),
            None => sp_array_first(s@, i as int) is None,
        },
    decreases s@.len() - i, 2int,
{
    if i >= s.len() {
        return None;
    }
    let c = s[i];
    if is_ws_exec(c) {
        return parse_array_first(s, i + 1);
    }
    if c == ']' {
        let empty: Vec<JsonValue> = Vec::new();
        proof {
            assert(json_views(empty@) =~= Seq::<JsonView>::empty());
        }
        return Some((empty, i + 1));
    }
    parse_array_items(s, i)
}

/// Reads the elements of an array from the start of its next element.
fn parse_array_items(s: &Vec<char>, i: usize) -> (r: Option<(Vec<JsonValue>, usize)>)
    ensures
        match r {
            Some(p) => sp_array_items(s@, i as int) == Some(
                (JsonView::Arr { items: json_views(p.0@) }, p.1 as int),
            ) && i < p.1 <= s@.len(),
            None => sp_array_items(s@, i as int) is None,
        },
    decreases s@.len() - i, 1int,
{
    match parse_value(s, i) {
        None => None,
        Some(pv) => {
            let (v, k) = pv;
            match parse_array_rest(s, k) {
                None => None,
                Some(pr) => {
                    let (mut vs, e) = pr;
                    let ghost before = vs@;
                    vs.insert(0, v);
                    proof {
                        lemma_json_views_elts(before);
                        lemma_json_views_elts(vs@);
                        before.insert_ensures(0, v);
                        assert(json_views(vs@) =~~= seq![json_view(v)] + json_views(before));
                    }
                    Some((vs, e))
                },
            }
        },
    }
}

/// After one array element: `,` and the next element, or `]`.
fn parse_array_rest(s: &Vec<char>, i: usize) -> (r: Option<(Vec<JsonValue>, usize)>)
    ensures
        match r {
            Some(p) => sp_array_rest(s@, i as int) == Some(
                (JsonView::Arr { items: json_views(p.0@) }, p.1 as int),
            ) && i < p.1 <= s@.len(),
            None => sp_array_rest(s@, i as int) is None,
        },
    decreases s@.len() - i, 1int,
{
    if i >= s.len() {
        return None;
    }
    let c = s[i];
    if is_ws_exec(c) {
        return parse_array_rest(s, i + 1);
    }
    if c == ']' {
        let empty: Vec<JsonValue> = Vec::new();
        proof {
            assert(json_views(empty@) =~= Seq::<JsonView>::empty());
        }
        return Some((empty, i + 1));
    }
    if c == ',' {
        return parse_array_items(s, i + 1);
    }
    None
}

/// Reads the rest of an object just after `{`.
fn parse_members_first(s: &Vec<char>, i: usize) -> (r: Option<(Vec<JsonMember>, usize)>)
    ensures
        match r {
            Some(p) => sp_members_first(s@, i as int) == Some(
                (JsonView::Obj { members: member_views(p.0@) }, p.1 as int),
            ) && i < p.1 <= s@.len(),
            None => sp_members_first(s@, i as int) is None,
        },
    decreases s@.len() - i, 2int,
{
    if i >= s.len() {
        return None;
    }
    let c = s[i];
    if is_ws_exec(c) {
        return parse_members_first(s, i + 1);
    }
    if c == '}' {
        let empty: Vec<JsonMember> = Vec::new();
        proof {
            assert(member_views(empty@) =~= Seq::<(Seq<char>, JsonView)>::empty());
        }
        return Some((empty, i + 1));
    }
    parse_members_items(s, i)
}

/// Reads the members of an object from the start of its next key.
fn parse_members_items(s: &Vec<char>, i: usize) -> (r: Option<(Vec<JsonMember>, usize)>)
    ensures
        match r {
            Some(p) => sp_members_items(s@, i as int) == Some(
                (JsonView::Obj { members: member_views(p.0@) }, p.1 as int),
            ) && i < p.1 <= s@.len(),
            None => sp_members_items(s@, i as int) is None,
        },
    decreases s@.len() - i, 1int,
{
    if i >= s.len() {
        return None;
    }
    let c = s[i];
    if is_ws_exec(c) {
        return parse_members_items(s, i + 1);
    }
    if c != '"' {
        return None;
    }
    match parse_string_body(s, i + 1) {
        None => None,
        Some(pk) => {
            let key = crate::strutil::chars_to_string(&pk.0);
            parse_member_value(s, pk.1, key)
        },
    }
}

/// After a member's key: `:`, its value, and the rest of the object.
fn parse_member_value(s: &Vec<char>, i: usize, key: String) -> (r: Option<(Vec<JsonMember>, usize)>)
    ensures
        match r {
            Some(p) => sp_member_value(s@, i as int, key@) == Some(
                (JsonView::Obj { members: member_views(p.0@) }, p.1 as int),
            ) && i < p.1 <= s@.len(),
            None => sp_member_value(s@, i as int, key@) is None,
        },
    decreases s@.len() - i, 1int,
{
    if i >= s.len() {
        return None;
    }
    let c = s[i];
    if is_ws_exec(c) {
        return parse_member_value(s, i + 1, key);
    }
    if c != ':' {
        return None;
    }
    match parse_value(s, i + 1) {
        None => None,
        Some(pv) => {
            let (v, k) = pv;
            match parse_members_rest(s, k) {
                None => None,
                Some(pr) => {
                    let (mut ms, e) = pr;
                    let ghost before = ms@;
                    let ghost keyv = key@;
                    let ghost vv = json_view(v);
                    let ghost v2 = v;
                    let ghost key2 = key;
                    ms.insert(0, JsonMember { key, value: v });
                    proof {
                        lemma_member_views_elts(before);
                        lemma_member_views_elts(ms@);
                        before.insert_ensures(0, JsonMember { key: key2, value: v2 });
                        assert(ms@[0int].key@ == keyv && ms@[0int].value == v2);
                        assert(member_views(ms@) =~~= seq![(keyv, vv)] + member_views(before));
                    }
                    Some((ms, e))
                },
            }
        },
    }
}

/// After one member: `,` and the next member, or `}`.
fn parse_members_rest(s: &Vec<char>, i: usize) -> (r: Option<(Vec<JsonMember>, usize)>)
    ensures
        match r {
            Some(p) => sp_members_rest(s@, i as int) == Some(
                (JsonView::Obj { members: member_views(p.0@) }, p.1 as int),
            ) && i < p.1 <= s@.len(),
            None => sp_members_rest(s@, i as int) is None,
        },
    decreases s@.len() - i, 1int,
{
    if i >= s.len() {
        return None;
    }
    let c = s[i];
    if is_ws_exec(c) {
        return parse_members_rest(s, i + 1);
    }
    if c == '}' {
        let empty: Vec<JsonMember> = Vec::new();
        proof {
            assert(member_views(empty@) =~= Seq::<(Seq<char>, JsonView)>::empty());
        }
        return Some((empty, i + 1));
    }
    if c == ',' {
        return parse_members_items(s, i + 1);
    }
    None
}

/// Reads a whole document: one value with nothing but whitespace after
/// it.
pub fn parse_document(s: &str) -> (r: Option<JsonValue>)
    ensures
        match r {
            Some(v) => sp_document(s@) == Some(json_view(v)),
            None => sp_document(s@) is None,
        },
{
    let chars = crate::strutil::to_char_vec(s);
    match parse_value(&chars, 0) {
        None => None,
        Some(p) => {
            let (v, k) = p;
            let mut j = k;
            while j < chars.len()
                invariant
                    chars@ == s@,
                    k <= j <= chars@.len(),
                    sp_value(s@, 0) == Some((json_view(v), k as int)),
                    forall|m: int| k <= m < j ==> is_ws(#[trigger] chars@[m]),
                decreases chars@.len() - j,
            {
                if !is_ws_exec(chars[j]) {
                    proof {
                        assert(!only_ws_from(s@, k as int));
                    }
                    return None;
                }
                j += 1;
            }
            proof {
                assert(only_ws_from(s@, k as int));
            }
            Some(v)
        },
    }
}

/// A character's scalar value is never negative.
proof fn lemma_char_nonneg(c: char)
    ensures
        c as int >= 0,
{
}

/// A canonically represented value: a negative number always has a
/// positive magnitude, so zero is written without a sign, and the rule
/// holds throughout arrays and objects.
pub open spec fn canonical(j: JsonView) -> bool
    decreases j,
{
    match j {
        JsonView::Num { neg, mag } => !neg || mag > 0,
        JsonView::Arr { items } => forall|i: int|
            0 <= i < items.len() ==> canonical(#[trigger] items[i]),
        JsonView::Obj { members } => forall|i: int|
            0 <= i < members.len() ==> canonical((#[trigger] members[i]).1),
        _ => true,
    }
}

/// A character that could extend a number literal: a digit, a decimal
/// point or an exponent marker.
pub open spec fn num_extender(c: char) -> bool {
    is_digit(c) || c == '.' || c == 'e' || c == 'E'
}

/// Nothing serializes to the empty string.
proof fn lemma_ser_min_len(j: JsonView)
    ensures
        ser_value(j).len() >= 1,
{
    reveal_strlit("null");
    reveal_strlit("true");
    reveal_strlit("false");
    match j {
        JsonView::Num { neg, mag } => {
            lemma_dec_digits_facts(mag as nat);
        },
        _ => {},
    }
}

/// The decimal rendering of a number: its digits are digits, there is
/// at least one, and they are worth the number.
proof fn lemma_dec_digits_facts(n: nat)
    ensures
        dec_digits(n).len() >= 1,
        crate::numbers::all_digits(dec_digits(n)),
        digits_val(dec_digits(n)) == n,
    decreases n,
{
    if n < 10 {
        let dd = dec_digits(n);
        assert(dd.drop_last() =~= Seq::<char>::empty());
        assert(digits_val(Seq::<char>::empty()) == 0);
        assert(dd.last() == crate::numbers::digit_char(n as int));
        assert(digit_val(crate::numbers::digit_char(n as int)) == n);
        assert(is_digit(dd[0]));
    } else {
        lemma_dec_digits_facts(n / 10);
        let dd = dec_digits(n);
        assert(dd.drop_last() == dec_digits(n / 10));
        assert(dd.last() == crate::numbers::digit_char((n % 10) as int));
        assert(digit_val(crate::numbers::digit_char((n % 10) as int)) == n % 10);
        assert(forall|i: int|
            0 <= i < dd.len() - 1 ==> #[trigger] dd[i] == dec_digits(n / 10)[i]);
    }
}

/// Serialization of a string body distributes over concatenation.
proof fn lemma_ser_string_body_concat(a: Seq<char>, b: Seq<char>)
    ensures
        ser_string_body(a + b) == ser_string_body(a) + ser_string_body(b),
    decreases b.len(),
{
    if b.len() == 0 {
        assert(a + b =~= a);
        assert(ser_string_body(a) + ser_string_body(b) =~= ser_string_body(a));
    } else {
        lemma_ser_string_body_concat(a, b.drop_last());
        assert((a + b).drop_last() =~= a + b.drop_last());
        assert((a + b).last() == b.last());
        assert(ser_string_body(a + b) =~= ser_string_body(a) + ser_string_body(b));
    }
}

/// Serialization of a non-empty string body starts with its first
/// character's escape.
proof fn lemma_ser_string_body_first(content: Seq<char>)
    requires
        content.len() > 0,
    ensures
        ser_string_body(content) == esc_char(content[0]) + ser_string_body(content.drop_first()),
{
    assert(content =~= seq![content[0]] + content.drop_first());
    lemma_ser_string_body_concat(seq![content[0]], content.drop_first());
    assert(seq![content[0]].drop_last() =~= Seq::<char>::empty());
    assert(seq![content[0]].last() == content[0]);
    assert(ser_string_body(seq![content[0]]) == ser_string_body(Seq::<char>::empty())
        + esc_char(content[0]));
    assert(ser_string_body(Seq::<char>::empty()) + esc_char(content[0]) =~= esc_char(
        content[0],
    ));
    assert(ser_string_body(content) == ser_string_body(seq![content[0]] + content.drop_first()));
}

/// Reading a hexadecimal digit back yields its value.
proof fn lemma_hex_digit_inverse(d: int)
    requires
        0 <= d < 16,
    ensures
        hex_val(hex_digit(d)) == Some(d),
{
}

/// Parsing an embedded, escaped string body yields the original
/// characters and stops just past the closing quote.
#[verifier::rlimit(50)]
proof fn lemma_rt_string_body(s: Seq<char>, i: int, content: Seq<char>)
    requires
        0 <= i,
        i + ser_string_body(content).len() + 1 <= s.len(),
        s.subrange(i, i + ser_string_body(content).len() + 1) == ser_string_body(content)
            + seq!['"'],
    ensures
        sp_string_body(s, i) == Some(
            (content, i + ser_string_body(content).len() + 1),
        ),
    decreases content.len(),
{
    let body = ser_string_body(content);
    let piece = body + seq!['"'];
    assert(forall|k: int|
        0 <= k < piece.len() ==> s[i + k] == #[trigger] piece[k]) by {
        assert(forall|k: int|
            0 <= k < piece.len() ==> s.subrange(i, i + piece.len() as int)[k] == #[trigger] piece[k]);
    }
    if content.len() == 0 {
        assert(piece =~= seq!['"']);
        assert(piece[0] == '"' && s[i + 0] == piece[0]);
        assert(s[i] == '"');
    } else {
        let c = content[0];
        let rest = content.drop_first();
        lemma_ser_string_body_first(content);
        let e = esc_char(c);
        let rest_body = ser_string_body(rest);
        assert(body == e + rest_body);
        assert(forall|k: int| 0 <= k < e.len() ==> #[trigger] piece[k] == e[k]);
        assert forall|k: int|
            0 <= k < rest_body.len() + 1 implies s.subrange(
            i + e.len(),
            i + piece.len() as int,
        )[k] == (rest_body + seq!['"'])[k] by {
            assert(s[i + (e.len() + k)] == piece[e.len() + k]);
        }
        assert(s.subrange(i + e.len(), i + piece.len() as int) =~= rest_body + seq!['"']);
        lemma_rt_string_body(s, i + e.len(), rest);
        if c == '"' {
            assert(piece[0] == e[0] && s[i + 0] == piece[0] && e[0] == '\\');
            assert(piece[1] == e[1] && s[i + 1] == piece[1] && e[1] == '"');
            assert(s[i] == '\\' && s[i + 1] == '"');
            assert(unescape_simple(s[i + 1]) == Some('"'));
            assert(seq![c] + rest =~= content);
        } else if c == '\\' {
            assert(piece[0] == e[0] && s[i + 0] == piece[0] && e[0] == '\\');
            assert(piece[1] == e[1] && s[i + 1] == piece[1] && e[1] == '\\');
            assert(s[i] == '\\' && s[i + 1] == '\\');
            assert(unescape_simple(s[i + 1]) == Some('\\'));
            assert(seq![c] + rest =~= content);
        } else if (c as int) < 32 {
            assert(piece[0] == e[0] && s[i + 0] == piece[0] && e[0] == '\\');
            assert(piece[1] == e[1] && s[i + 1] == piece[1] && e[1] == 'u');
            assert(piece[2] == e[2] && s[i + 2] == piece[2] && e[2] == '0');
            assert(piece[3] == e[3] && s[i + 3] == piece[3] && e[3] == '0');
            assert(piece[4] == e[4] && s[i + 4] == piece[4] && e[4] == hex_digit(c as int / 16));
            assert(piece[5] == e[5] && s[i + 5] == piece[5] && e[5] == hex_digit(c as int % 16));
            lemma_char_nonneg(c);
            assert(0 <= (c as int) && (c as int) < 32);
            assert(0 <= (c as int) / 16 && (c as int) / 16 < 16 && 0 <= (c as int) % 16 && (
            c as int) % 16 < 16) by (nonlinear_arith)
                requires
                    0 <= (c as int) && (c as int) < 32,
            ;
            lemma_hex_digit_inverse(c as int / 16);
            lemma_hex_digit_inverse(c as int % 16);
            assert(hex_val('0') == Some(0int));
            let code = 0 * 4096 + 0 * 256 + (c as int / 16) * 16 + c as int % 16;
            assert(code == c as int);
            assert(((code as u32) as char) == c);
            assert(seq![c] + rest =~= content);
        } else {
            assert(e =~= seq![c]);
            assert(piece[0] == e[0] && s[i + 0] == piece[0] && e[0] == c);
            assert(s[i] == c);
            assert(s[i] != '"' && s[i] != '\\' && !((s[i] as int) < 32));
            assert(seq![c] + rest =~= content);
        }
    }
}

/// A digit run surrounded as described ends exactly at `e`.
proof fn lemma_digits_end_exact(s: Seq<char>, d0: int, e: int)
    requires
        0 <= d0 <= e <= s.len(),
        forall|j: int| d0 <= j < e ==> is_digit(#[trigger] s[j]),
        e == s.len() || !is_digit(s[e]),
    ensures
        digits_end(s, d0) == e,
    decreases e - d0,
{
    if d0 < e {
        lemma_digits_end_exact(s, d0 + 1, e);
    }
}

/// Parsing an embedded, canonically written number yields it back.
proof fn lemma_rt_number(s: Seq<char>, i: int, neg: bool, mag: u64)
    requires
        !neg || mag > 0,
        0 <= i,
        i + ser_num(neg, mag).len() <= s.len(),
        s.subrange(i, i + ser_num(neg, mag).len()) == ser_num(neg, mag),
        i + ser_num(neg, mag).len() == s.len() || !num_extender(
            s[i + ser_num(neg, mag).len()],
        ),
    ensures
        sp_number(s, i) == Some((JsonView::Num { neg, mag }, i + ser_num(neg, mag).len())),
{
    let piece = ser_num(neg, mag);
    let dd = dec_digits(mag as nat);
    lemma_dec_digits_facts(mag as nat);
    assert(forall|k: int|
        0 <= k < piece.len() ==> s[i + k] == #[trigger] piece[k]) by {
        assert(forall|k: int|
            0 <= k < piece.len() ==> s.subrange(i, i + piece.len() as int)[k] == #[trigger] piece[k]);
    }
    let end = i + piece.len();
    if neg && mag > 0 {
        assert(piece[0] == '-' && s[i + 0] == piece[0]);
        assert(!is_digit('-'));
        let d0 = i + 1;
        assert forall|j: int| d0 <= j < end implies is_digit(#[trigger] s[j]) by {
            assert(s[j] == piece[j - i]);
            assert(piece[j - i] == dd[j - i - 1]);
        }
        assert(end == s.len() || !is_digit(s[end]));
        lemma_digits_end_exact(s, d0, end);
        assert forall|k: int| 0 <= k < dd.len() implies s.subrange(d0, end)[k] == dd[k] by {
            assert(s[d0 + k] == piece[k + 1]);
            assert(piece[k + 1] == dd[k]);
        }
        assert(s.subrange(d0, end) =~= dd);
        assert(digits_val(s.subrange(d0, end)) == mag);
    } else {
        assert(piece == dd);
        assert(piece[0] == dd[0] && s[i + 0] == piece[0]);
        assert(is_digit(s[i]));
        assert(s[i] != '-');
        let d0 = i;
        assert forall|j: int| d0 <= j < end implies is_digit(#[trigger] s[j]) by {
            assert(s[j] == piece[j - i]);
            assert(piece[j - i] == dd[j - i]);
        }
        assert(end == s.len() || !is_digit(s[end]));
        lemma_digits_end_exact(s, d0, end);
        assert forall|k: int| 0 <= k < dd.len() implies s.subrange(d0, end)[k] == dd[k] by {
            assert(s[d0 + k] == piece[k]);
            assert(piece[k] == dd[k]);
        }
        assert(s.subrange(d0, end) =~= dd);
        assert(digits_val(s.subrange(d0, end)) == mag);
        assert(!neg || mag == 0);
        if neg {
            assert(false);
        }
    }
}

/// The first character a value is written with: never whitespace and
/// never a closing bracket, brace or comma.
proof fn lemma_ser_first_char(j: JsonView)
    ensures
        ser_value(j).len() >= 1,
        !is_ws(ser_value(j)[0]),
        ser_value(j)[0] != ']',
        ser_value(j)[0] != '}',
        ser_value(j)[0] != ',',
        ser_value(j)[0] != ':',
{
    reveal_strlit("null");
    reveal_strlit("true");
    reveal_strlit("false");
    match j {
        JsonView::Num { neg, mag } => {
            lemma_dec_digits_facts(mag as nat);
            let piece = ser_num(neg, mag);
            if neg && mag > 0 {
                assert(piece[0] == '-');
            } else {
                assert(piece[0] == dec_digits(mag as nat)[0]);
                assert(is_digit(piece[0]));
            }
        },
        _ => {},
    }
}

/// The first element of a written element list stands at its front.
proof fn lemma_ser_items_first(items: Seq<JsonView>)
    requires
        items.len() >= 1,
    ensures
        items.len() == 1 ==> ser_items(items) == ser_value(items[0]),
        items.len() > 1 ==> ser_items(items) == ser_value(items[0]) + seq![','] + ser_items(
            items.drop_first(),
        ),
    decreases items.len(),
{
    if items.len() == 1 {
        assert(items.last() == items[0]);
    } else {
        let dl = items.drop_last();
        lemma_ser_items_first(dl);
        if items.len() == 2 {
            assert(dl =~= seq![items[0]]);
            assert(items.drop_first() =~= seq![items[1]]);
            assert(ser_items(items.drop_first()) == ser_value(items[1]));
            assert(ser_items(items) =~= ser_value(items[0]) + seq![','] + ser_items(
                items.drop_first(),
            ));
        } else {
            assert(dl[0] == items[0]);
            assert(items.drop_first().drop_last() =~= dl.drop_first());
            assert(items.drop_first().last() == items.last());
            assert(items.drop_first().len() >= 2);
            assert(ser_items(items.drop_first()) == ser_items(dl.drop_first()) + seq![',']
                + ser_value(items.last()));
            assert(ser_items(items) =~= ser_value(items[0]) + seq![','] + ser_items(
                items.drop_first(),
            ));
        }
    }
}

/// The first member of a written member list stands at its front.
proof fn lemma_ser_members_first(members: Seq<(Seq<char>, JsonView)>)
    requires
        members.len() >= 1,
    ensures
        members.len() == 1 ==> ser_members(members) == ser_member(members[0]),
        members.len() > 1 ==> ser_members(members) == ser_member(members[0]) + seq![',']
            + ser_members(members.drop_first()),
    decreases members.len(),
{
    if members.len() == 1 {
        assert(members.last() == members[0]);
    } else {
        let dl = members.drop_last();
        lemma_ser_members_first(dl);
        if members.len() == 2 {
            assert(dl =~= seq![members[0]]);
            assert(members.drop_first() =~= seq![members[1]]);
            assert(ser_members(members.drop_first()) == ser_member(members[1]));
            assert(ser_members(members) =~= ser_member(members[0]) + seq![','] + ser_members(
                members.drop_first(),
            ));
        } else {
            assert(dl[0] == members[0]);
            assert(members.drop_first().drop_last() =~= dl.drop_first());
            assert(members.drop_first().last() == members.last());
            assert(members.drop_first().len() >= 2);
            assert(ser_members(members.drop_first()) == ser_members(dl.drop_first())
                + seq![','] + ser_member(members.drop_first().last()));
            assert(ser_members(members) =~= ser_member(members[0]) + seq![','] + ser_members(
                members.drop_first(),
            ));
        }
    }
}

/// A piece embedded in an embedded piece is embedded itself.
proof fn lemma_embed(s: Seq<char>, i: int, piece: Seq<char>, off: int, sub: Seq<char>)
    requires
        0 <= i,
        i + piece.len() <= s.len(),
        s.subrange(i, i + piece.len()) == piece,
        0 <= off,
        off + sub.len() <= piece.len(),
        piece.subrange(off, off + sub.len()) == sub,
    ensures
        s.subrange(i + off, i + off + sub.len()) == sub,
{
    assert forall|k: int|
        0 <= k < sub.len() implies s.subrange(i + off, i + off + sub.len() as int)[k] == sub[k] by {
        assert(s.subrange(i, i + piece.len() as int)[off + k] == piece[off + k]);
        assert(piece.subrange(off, off + sub.len() as int)[k] == sub[k]);
    }
    assert(s.subrange(i + off, i + off + sub.len()) =~= sub);
}

/// One character of an embedded piece.
proof fn lemma_embed_char(s: Seq<char>, i: int, piece: Seq<char>, off: int)
    requires
        0 <= i,
        i + piece.len() <= s.len(),
        s.subrange(i, i + piece.len()) == piece,
        0 <= off < piece.len(),
    ensures
        s[i + off] == piece[off],
{
    assert(s.subrange(i, i + piece.len() as int)[off] == piece[off]);
}

/// Parsing an embedded, canonically written value yields it back and
/// stops right after it.
#[verifier::rlimit(50)]
proof fn lemma_rt_value(s: Seq<char>, i: int, j: JsonView)
    requires
        canonical(j),
        0 <= i,
        i + ser_value(j).len() <= s.len(),
        s.subrange(i, i + ser_value(j).len()) == ser_value(j),
        j is Num ==> (i + ser_value(j).len() == s.len() || !num_extender(
            s[i + ser_value(j).len()],
        )),
    ensures
        sp_value(s, i) == Some((j, i + ser_value(j).len())),
    decreases j,
{
    let piece = ser_value(j);
    lemma_ser_first_char(j);
    lemma_embed_char(s, i, piece, 0);
    reveal_strlit("null");
    reveal_strlit("true");
    reveal_strlit("false");
    match j {
        JsonView::Null => {
            assert(s.subrange(i, i + 4) == "null"@);
            assert(crate::strutil::occurs_at(s, "null"@, i));
            assert(s[i] == 'n' && !is_ws('n'));
        },
        JsonView::Bool { b } => {
            if b {
                assert(s.subrange(i, i + 4) == "true"@);
                assert(crate::strutil::occurs_at(s, "true"@, i));
                assert(s[i] == 't' && !is_ws('t'));
            } else {
                assert(s.subrange(i, i + 5) == "false"@);
                assert(crate::strutil::occurs_at(s, "false"@, i));
                assert(s[i] == 'f' && !is_ws('f'));
            }
            assert(sp_value(s, i) == Some((j, i + ser_value(j).len())));
        },
        JsonView::Num { neg, mag } => {
            lemma_rt_number(s, i, neg, mag);
            assert(s[i] == '-' || is_digit(s[i]));
            assert(sp_value(s, i) == Some((j, i + ser_value(j).len())));
        },
        JsonView::Str { s: content } => {
            assert(s[i] == '"');
            assert(piece.subrange(1, piece.len() as int) =~= ser_string_body(content)
                + seq!['"']);
            lemma_embed(s, i, piece, 1, ser_string_body(content) + seq!['"']);
            lemma_rt_string_body(s, i + 1, content);
            assert(sp_value(s, i) == Some((j, i + ser_value(j).len())));
        },
        JsonView::Arr { items } => {
            assert(s[i] == '[');
            assert(piece.subrange(1, piece.len() as int) =~= ser_items(items) + seq![']']);
            lemma_embed(s, i, piece, 1, ser_items(items) + seq![']']);
            assert(j == JsonView::Arr { items });
            assert(piece.len() == 1 + ser_items(items).len() + 1);
            if items.len() == 0 {
                assert(ser_items(items) =~= Seq::<char>::empty());
                lemma_embed_char(s, i + 1, ser_items(items) + seq![']'], 0);
                assert(s[i + 1] == ']' && !is_ws(']'));
                assert(Seq::<JsonView>::empty() =~= items);
                assert(sp_array_first(s, i + 1) == Some(
                    (JsonView::Arr { items: Seq::empty() }, i + 2),
                ));
                assert(sp_array_first(s, i + 1) == Some((JsonView::Arr { items }, i + 2)));
                assert(sp_value(s, i) == sp_array_first(s, i + 1));
            } else {
                lemma_ser_items_first(items);
                lemma_ser_first_char(items[0]);
                lemma_embed_char(s, i + 1, ser_items(items) + seq![']'], 0);
                assert((ser_items(items) + seq![']'])[0] == ser_value(items[0])[0]);
                assert(canonical(items[0]));
                lemma_rt_items(s, i + 1, items);
                assert(sp_array_items(s, i + 1) == Some(
                    (JsonView::Arr { items }, i + 1 + ser_items(items).len() + 1),
                ));
                assert(!is_ws(s[i + 1]) && s[i + 1] != ']');
                assert(sp_array_first(s, i + 1) == sp_array_items(s, i + 1));
                assert(sp_value(s, i) == sp_array_first(s, i + 1));
            }
            assert(sp_value(s, i) == Some((j, i + ser_value(j).len())));
        },
        JsonView::Obj { members } => {
            assert(s[i] == '{');
            assert(piece.subrange(1, piece.len() as int) =~= ser_members(members) + seq!['}']);
            lemma_embed(s, i, piece, 1, ser_members(members) + seq!['}']);
            assert(j == JsonView::Obj { members });
            assert(piece.len() == 1 + ser_members(members).len() + 1);
            if members.len() == 0 {
                assert(ser_members(members) =~= Seq::<char>::empty());
                lemma_embed_char(s, i + 1, ser_members(members) + seq!['}'], 0);
                assert(s[i + 1] == '}' && !is_ws('}'));
                assert(Seq::<(Seq<char>, JsonView)>::empty() =~= members);
                assert(sp_members_first(s, i + 1) == Some(
                    (JsonView::Obj { members: Seq::empty() }, i + 2),
                ));
                assert(sp_members_first(s, i + 1) == Some((JsonView::Obj { members }, i + 2)));
                assert(sp_value(s, i) == sp_members_first(s, i + 1));
            } else {
                lemma_ser_members_first(members);
                lemma_embed_char(s, i + 1, ser_members(members) + seq!['}'], 0);
                assert((ser_members(members) + seq!['}'])[0] == '"');
                assert(canonical(members[0].1));
                lemma_rt_members(s, i + 1, members);
                assert(sp_members_items(s, i + 1) == Some(
                    (JsonView::Obj { members }, i + 1 + ser_members(members).len() + 1),
                ));
                assert(!is_ws(s[i + 1]) && s[i + 1] != '}');
                assert(sp_members_first(s, i + 1) == sp_members_items(s, i + 1));
                assert(sp_value(s, i) == sp_members_first(s, i + 1));
            }
            assert(sp_value(s, i) == Some((j, i + ser_value(j).len())));
        },
    }
}

/// Parsing embedded, canonically written array elements yields them
/// back, up to and including the closing bracket.
#[verifier::rlimit(50)]
proof fn lemma_rt_items(s: Seq<char>, i: int, items: Seq<JsonView>)
    requires
        items.len() >= 1,
        forall|k: int| 0 <= k < items.len() ==> canonical(#[trigger] items[k]),
        0 <= i,
        i + ser_items(items).len() + 1 <= s.len(),
        s.subrange(i, i + ser_items(items).len() + 1) == ser_items(items) + seq![']'],
    ensures
        sp_array_items(s, i) == Some(
            (JsonView::Arr { items }, i + ser_items(items).len() + 1),
        ),
    decreases items,
{
    let body = ser_items(items);
    let piece = body + seq![']'];
    lemma_ser_items_first(items);
    let j0 = items[0];
    let sj0 = ser_value(j0);
    lemma_ser_min_len(j0);
    assert(piece.subrange(0, sj0.len() as int) =~= sj0);
    lemma_embed(s, i, piece, 0, sj0);
    lemma_embed_char(s, i, piece, sj0.len() as int);
    let sep = piece[sj0.len() as int];
    if items.len() == 1 {
        assert(sep == ']');
    } else {
        assert(sep == ',');
    }
    assert(!num_extender(sep));
    lemma_rt_value(s, i, j0);
    let k = i + sj0.len();
    assert(!is_ws(sep));
    if items.len() == 1 {
        assert(seq![j0] + Seq::<JsonView>::empty() =~= items);
    } else {
        let rest = items.drop_first();
        assert(piece.subrange(sj0.len() as int + 1, piece.len() as int) =~= ser_items(rest)
            + seq![']']);
        lemma_embed(s, i, piece, sj0.len() as int + 1, ser_items(rest) + seq![']']);
        assert(forall|t: int| 0 <= t < rest.len() ==> canonical(#[trigger] rest[t])) by {
            assert(forall|t: int| 0 <= t < rest.len() ==> #[trigger] rest[t] == items[t + 1]);
        }
        lemma_rt_items(s, k + 1, rest);
        assert(seq![j0] + rest =~= items);
    }
}

/// Parsing embedded, canonically written object members yields them
/// back, up to and including the closing brace.
#[verifier::rlimit(50)]
proof fn lemma_rt_members(s: Seq<char>, i: int, members: Seq<(Seq<char>, JsonView)>)
    requires
        members.len() >= 1,
        forall|k: int| 0 <= k < members.len() ==> canonical((#[trigger] members[k]).1),
        0 <= i,
        i + ser_members(members).len() + 1 <= s.len(),
        s.subrange(i, i + ser_members(members).len() + 1) == ser_members(members) + seq!['}'],
    ensures
        sp_members_items(s, i) == Some(
            (JsonView::Obj { members }, i + ser_members(members).len() + 1),
        ),
    decreases members,
{
    let body = ser_members(members);
    let piece = body + seq!['}'];
    lemma_ser_members_first(members);
    let m0 = members[0];
    let sm0 = ser_member(m0);
    let skey = ser_string(m0.0);
    let sval = ser_value(m0.1);
    lemma_ser_min_len(m0.1);
    assert(sm0 == skey + seq![':'] + sval);
    assert(piece.subrange(0, sm0.len() as int) =~= sm0);
    lemma_embed(s, i, piece, 0, sm0);
    lemma_embed_char(s, i, sm0, 0);
    assert(s[i] == '"' && !is_ws('"'));
    assert(sm0.subrange(1, skey.len() as int) =~= ser_string_body(m0.0) + seq!['"']);
    lemma_embed(s, i, sm0, 1, ser_string_body(m0.0) + seq!['"']);
    lemma_rt_string_body(s, i + 1, m0.0);
    let k1 = i + skey.len();
    lemma_embed_char(s, i, sm0, skey.len() as int);
    assert(sm0[skey.len() as int] == ':');
    assert(s[k1] == ':' && !is_ws(':'));
    assert(sm0.subrange(skey.len() as int + 1, sm0.len() as int) =~= sval);
    lemma_embed(s, i, sm0, skey.len() as int + 1, sval);
    lemma_embed_char(s, i, piece, sm0.len() as int);
    let sep = piece[sm0.len() as int];
    if members.len() == 1 {
        assert(sep == '}');
    } else {
        assert(sep == ',');
    }
    assert(!num_extender(sep) && !is_ws(sep));
    lemma_rt_value(s, k1 + 1, m0.1);
    let k2 = i + sm0.len();
    if members.len() == 1 {
        assert((m0.0, m0.1) == m0);
        assert(seq![(m0.0, m0.1)] + Seq::<(Seq<char>, JsonView)>::empty() =~~= members);
        assert(sp_members_rest(s, k2) == Some(
            (JsonView::Obj { members: Seq::empty() }, k2 + 1),
        ));
        assert(sp_value(s, k1 + 1) == Some((m0.1, k2)));
        assert(sp_member_value(s, k1, m0.0) == Some(
            (JsonView::Obj { members: seq![(m0.0, m0.1)] }, k2 + 1),
        ));
    } else {
        let rest = members.drop_first();
        assert(piece.subrange(sm0.len() as int + 1, piece.len() as int) =~= ser_members(rest)
            + seq!['}']);
        lemma_embed(s, i, piece, sm0.len() as int + 1, ser_members(rest) + seq!['}']);
        assert(forall|t: int|
            0 <= t < rest.len() ==> canonical((#[trigger] rest[t]).1)) by {
            assert(forall|t: int|
                0 <= t < rest.len() ==> #[trigger] rest[t] == members[t + 1]);
        }
        lemma_rt_members(s, k2 + 1, rest);
        assert((m0.0, m0.1) == m0);
        assert(seq![(m0.0, m0.1)] + rest =~~= members);
    }
}

/// Round trip at the document level: parsing a canonically written
/// value's document yields exactly that value.
pub proof fn lemma_document_round_trip(j: JsonView)
    requires
        canonical(j),
    ensures
        sp_document(ser_value(j)) == Some(j),
{
    let s = ser_value(j);
    assert(s.subrange(0, s.len() as int) =~= s);
    lemma_rt_value(s, 0, j);
    assert(only_ws_from(s, s.len() as int));
}

/// A run of spaces.
pub open spec fn spaces(n: nat) -> Seq<char> {
    Seq::new(n, |i: int| ' ')
}

/// A line break followed by the indentation of a nesting depth: two
/// spaces per level.
pub open spec fn nl_indent(depth: nat) -> Seq<char> {
    seq!['\n'] + spaces(2 * depth)
}

/// The nesting depth one level further in; indentation stops growing
/// at 64 levels.
pub open spec fn inc_depth(depth: nat) -> nat {
    if depth < 64 {
        depth + 1
    } else {
        depth
    }
}

/// How a value is pretty-printed at a nesting depth: arrays and objects
/// put every element and member on its own indented line; everything
/// else is written as in [`ser_value`].
pub open spec fn ser_pretty_value(j: JsonView, depth: nat) -> Seq<char>
    decreases j, 1int,
{
    match j {
        JsonView::Arr { items } => if items.len() == 0 {
            seq!['[', ']']
        } else {
            seq!['['] + ser_pretty_items(items, inc_depth(depth)) + nl_indent(depth)
                + seq![']']
        },
        JsonView::Obj { members } => if members.len() == 0 {
            seq!['{', '}']
        } else {
            seq!['{'] + ser_pretty_members(members, inc_depth(depth)) + nl_indent(depth)
                + seq!['}']
        },
        _ => ser_value(j),
    }
}

/// How an array's elements are pretty-printed: each on its own indented
/// line, separated by commas.
pub open spec fn ser_pretty_items(items: Seq<JsonView>, depth: nat) -> Seq<char>
    decreases items, 2int,
{
    if items.len() == 0 {
        Seq::empty()
    } else if items.len() == 1 {
        nl_indent(depth) + ser_pretty_value(items.last(), depth)
    } else {
        ser_pretty_items(items.drop_last(), depth) + seq![','] + nl_indent(depth)
            + ser_pretty_value(items.last(), depth)
    }
}

/// How an object's members are pretty-printed: each on its own indented
/// line, the value one space after the colon.
pub open spec fn ser_pretty_members(members: Seq<(Seq<char>, JsonView)>, depth: nat) -> Seq<char>
    decreases members, 2int,
{
    if members.len() == 0 {
        Seq::empty()
    } else if members.len() == 1 {
        nl_indent(depth) + ser_string(members.last().0) + seq![':', ' '] + ser_pretty_value(
            members.last().1,
            depth,
        )
    } else {
        ser_pretty_members(members.drop_last(), depth) + seq![','] + nl_indent(depth)
            + ser_string(members.last().0) + seq![':', ' '] + ser_pretty_value(
            members.last().1,
            depth,
        )
    }
}

/// Everything in an indentation chunk is whitespace.
proof fn lemma_nl_indent_ws(depth: nat)
    ensures
        nl_indent(depth).len() >= 1,
        forall|k: int| 0 <= k < nl_indent(depth).len() ==> is_ws(#[trigger] nl_indent(depth)[k]),
{
    assert forall|k: int|
        0 <= k < nl_indent(depth).len() implies is_ws(#[trigger] nl_indent(depth)[k]) by {
        if k == 0 {
            assert(nl_indent(depth)[0] == '\n');
        } else {
            assert(nl_indent(depth)[k] == spaces(2 * depth)[k - 1]);
            assert(spaces(2 * depth)[k - 1] == ' ');
        }
    }
}

/// An embedded indentation chunk makes a whitespace run in the text.
proof fn lemma_ws_chunk(s: Seq<char>, a: int, b: int, dd: nat)
    requires
        0 <= a,
        b == a + nl_indent(dd).len(),
        b <= s.len(),
        s.subrange(a, b) == nl_indent(dd),
    ensures
        forall|k: int| a <= k < b ==> is_ws(#[trigger] s[k]),
{
    lemma_nl_indent_ws(dd);
    assert forall|k: int| a <= k < b implies is_ws(#[trigger] s[k]) by {
        assert(s.subrange(a, b)[k - a] == nl_indent(dd)[k - a]);
    }
}

/// Reading a value is unmoved by leading whitespace.
proof fn lemma_ws_skip_value(s: Seq<char>, i: int, j: int)
    requires
        0 <= i <= j <= s.len(),
        forall|k: int| i <= k < j ==> is_ws(#[trigger] s[k]),
    ensures
        sp_value(s, i) == sp_value(s, j),
    decreases j - i,
{
    if i < j {
        lemma_ws_skip_value(s, i + 1, j);
    }
}

/// Reading an array opening is unmoved by leading whitespace.
proof fn lemma_ws_skip_array_first(s: Seq<char>, i: int, j: int)
    requires
        0 <= i <= j <= s.len(),
        forall|k: int| i <= k < j ==> is_ws(#[trigger] s[k]),
    ensures
        sp_array_first(s, i) == sp_array_first(s, j),
    decreases j - i,
{
    if i < j {
        lemma_ws_skip_array_first(s, i + 1, j);
    }
}

/// Reading an array separator is unmoved by leading whitespace.
proof fn lemma_ws_skip_array_rest(s: Seq<char>, i: int, j: int)
    requires
        0 <= i <= j <= s.len(),
        forall|k: int| i <= k < j ==> is_ws(#[trigger] s[k]),
    ensures
        sp_array_rest(s, i) == sp_array_rest(s, j),
    decreases j - i,
{
    if i < j {
        lemma_ws_skip_array_rest(s, i + 1, j);
    }
}

/// Reading an object opening is unmoved by leading whitespace.
proof fn lemma_ws_skip_members_first(s: Seq<char>, i: int, j: int)
    requires
        0 <= i <= j <= s.len(),
        forall|k: int| i <= k < j ==> is_ws(#[trigger] s[k]),
    ensures
        sp_members_first(s, i) == sp_members_first(s, j),
    decreases j - i,
{
    if i < j {
        lemma_ws_skip_members_first(s, i + 1, j);
    }
}

/// Reading a member key is unmoved by leading whitespace.
proof fn lemma_ws_skip_members_items(s: Seq<char>, i: int, j: int)
    requires
        0 <= i <= j <= s.len(),
        forall|k: int| i <= k < j ==> is_ws(#[trigger] s[k]),
    ensures
        sp_members_items(s, i) == sp_members_items(s, j),
    decreases j - i,
{
    if i < j {
        lemma_ws_skip_members_items(s, i + 1, j);
    }
}

/// Reading a member separator is unmoved by leading whitespace.
proof fn lemma_ws_skip_members_rest(s: Seq<char>, i: int, j: int)
    requires
        0 <= i <= j <= s.len(),
        forall|k: int| i <= k < j ==> is_ws(#[trigger] s[k]),
    ensures
        sp_members_rest(s, i) == sp_members_rest(s, j),
    decreases j - i,
{
    if i < j {
        lemma_ws_skip_members_rest(s, i + 1, j);
    }
}

/// The first element of a pretty-printed element list stands at its
/// front, after its indentation.
proof fn lemma_ser_pretty_items_first(items: Seq<JsonView>, depth: nat)
    requires
        items.len() >= 1,
    ensures
        items.len() == 1 ==> ser_pretty_items(items, depth) == nl_indent(depth)
            + ser_pretty_value(items[0], depth),
        items.len() > 1 ==> ser_pretty_items(items, depth) == nl_indent(depth)
            + ser_pretty_value(items[0], depth) + seq![','] + ser_pretty_items(
            items.drop_first(),
            depth,
        ),
    decreases items.len(),
{
    if items.len() == 1 {
        assert(items.last() == items[0]);
    } else {
        let dl = items.drop_last();
        lemma_ser_pretty_items_first(dl, depth);
        if items.len() == 2 {
            assert(dl =~= seq![items[0]]);
            assert(items.drop_first() =~= seq![items[1]]);
            assert(ser_pretty_items(items.drop_first(), depth) == nl_indent(depth)
                + ser_pretty_value(items[1], depth));
            assert(ser_pretty_items(items, depth) =~= nl_indent(depth) + ser_pretty_value(
                items[0],
                depth,
            ) + seq![','] + ser_pretty_items(items.drop_first(), depth));
        } else {
            assert(dl[0] == items[0]);
            assert(items.drop_first().drop_last() =~= dl.drop_first());
            assert(items.drop_first().last() == items.last());
            assert(items.drop_first().len() >= 2);
            assert(ser_pretty_items(items.drop_first(), depth) == ser_pretty_items(
                dl.drop_first(),
                depth,
            ) + seq![','] + nl_indent(depth) + ser_pretty_value(items.last(), depth));
            assert(ser_pretty_items(items, depth) =~= nl_indent(depth) + ser_pretty_value(
                items[0],
                depth,
            ) + seq![','] + ser_pretty_items(items.drop_first(), depth));
        }
    }
}

/// The first member of a pretty-printed member list stands at its
/// front, after its indentation.
proof fn lemma_ser_pretty_members_first(members: Seq<(Seq<char>, JsonView)>, depth: nat)
    requires
        members.len() >= 1,
    ensures
        members.len() == 1 ==> ser_pretty_members(members, depth) == nl_indent(depth)
            + ser_string(members[0].0) + seq![':', ' '] + ser_pretty_value(members[0].1, depth),
        members.len() > 1 ==> ser_pretty_members(members, depth) == nl_indent(depth)
            + ser_string(members[0].0) + seq![':', ' '] + ser_pretty_value(members[0].1, depth)
            + seq![','] + ser_pretty_members(members.drop_first(), depth),
    decreases members.len(),
{
    if members.len() == 1 {
        assert(members.last() == members[0]);
    } else {
        let dl = members.drop_last();
        lemma_ser_pretty_members_first(dl, depth);
        if members.len() == 2 {
            assert(dl =~= seq![members[0]]);
            assert(members.drop_first() =~= seq![members[1]]);
            assert(ser_pretty_members(members.drop_first(), depth) == nl_indent(depth)
                + ser_string(members[1].0) + seq![':', ' '] + ser_pretty_value(
                members[1].1,
                depth,
            ));
            assert(ser_pretty_members(members, depth) =~= nl_indent(depth) + ser_string(
                members[0].0,
            ) + seq![':', ' '] + ser_pretty_value(members[0].1, depth) + seq![',']
                + ser_pretty_members(members.drop_first(), depth));
        } else {
            assert(dl[0] == members[0]);
            assert(members.drop_first().drop_last() =~= dl.drop_first());
            assert(members.drop_first().last() == members.last());
            assert(members.drop_first().len() >= 2);
            assert(ser_pretty_members(members.drop_first(), depth) == ser_pretty_members(
                dl.drop_first(),
                depth,
            ) + seq![','] + nl_indent(depth) + ser_string(members.last().0) + seq![':', ' ']
                + ser_pretty_value(members.last().1, depth));
            assert(ser_pretty_members(members, depth) =~= nl_indent(depth) + ser_string(
                members[0].0,
            ) + seq![':', ' '] + ser_pretty_value(members[0].1, depth) + seq![',']
                + ser_pretty_members(members.drop_first(), depth));
        }
    }
}

/// The first character of a pretty-printed value: the same guarantees
/// as for the plain form.
proof fn lemma_ser_pretty_first_char(j: JsonView, depth: nat)
    ensures
        ser_pretty_value(j, depth).len() >= 1,
        !is_ws(ser_pretty_value(j, depth)[0]),
        ser_pretty_value(j, depth)[0] != ']',
        ser_pretty_value(j, depth)[0] != '}',
        ser_pretty_value(j, depth)[0] != ',',
        ser_pretty_value(j, depth)[0] != ':',
{
    match j {
        JsonView::Arr { items } => {
            assert(ser_pretty_value(j, depth)[0] == '[');
        },
        JsonView::Obj { members } => {
            assert(ser_pretty_value(j, depth)[0] == '{');
        },
        _ => {
            lemma_ser_first_char(j);
        },
    }
}

/// Parsing an embedded, canonically pretty-printed value yields it back
/// and stops right after it.
#[verifier::rlimit(100)]
proof fn lemma_rtp_value(s: Seq<char>, i: int, j: JsonView, depth: nat)
    requires
        canonical(j),
        0 <= i,
        i + ser_pretty_value(j, depth).len() <= s.len(),
        s.subrange(i, i + ser_pretty_value(j, depth).len()) == ser_pretty_value(j, depth),
        j is Num ==> (i + ser_pretty_value(j, depth).len() == s.len() || !num_extender(
            s[i + ser_pretty_value(j, depth).len()],
        )),
    ensures
        sp_value(s, i) == Some((j, i + ser_pretty_value(j, depth).len())),
    decreases j,
{
    let piece = ser_pretty_value(j, depth);
    match j {
        JsonView::Arr { items } => {
            lemma_embed_char(s, i, piece, 0);
            assert(s[i] == '[' && !is_ws('['));
            if items.len() == 0 {
                lemma_embed_char(s, i, piece, 1);
                assert(s[i + 1] == ']' && !is_ws(']'));
                assert(Seq::<JsonView>::empty() =~= items);
                assert(sp_array_first(s, i + 1) == Some((JsonView::Arr { items }, i + 2)));
                assert(sp_value(s, i) == sp_array_first(s, i + 1));
            } else {
                let d1 = inc_depth(depth);
                let block = ser_pretty_items(items, d1);
                let tail = block + nl_indent(depth) + seq![']'];
                assert(piece.subrange(1, piece.len() as int) =~= tail);
                lemma_embed(s, i, piece, 1, tail);
                lemma_nl_indent_ws(d1);
                lemma_ser_pretty_items_first(items, d1);
                let p0 = i + 1 + nl_indent(d1).len();
                assert(tail.subrange(0, nl_indent(d1).len() as int) =~= nl_indent(d1));
                lemma_embed(s, i + 1, tail, 0, nl_indent(d1));
                lemma_ws_chunk(s, i + 1, p0, d1);
                lemma_ws_skip_array_first(s, i + 1, p0);
                lemma_ser_pretty_first_char(items[0], d1);
                lemma_embed_char(s, i + 1, tail, nl_indent(d1).len() as int);
                assert(tail[nl_indent(d1).len() as int] == ser_pretty_value(items[0], d1)[0]);
                assert(!is_ws(s[p0]) && s[p0] != ']');
                assert(canonical(items[0]));
                lemma_rtp_items(s, i + 1, items, d1, depth);
                lemma_ws_skip_value(s, i + 1, p0);
                lemma_ser_pretty_first_char(items[0], d1);
                assert(sp_value(s, p0) == Some(
                    (items[0], i + 1 + nl_indent(d1).len() + ser_pretty_value(
                        items[0],
                        d1,
                    ).len()),
                ));
                assert(sp_array_items(s, p0) == sp_array_items(s, i + 1));
                assert(sp_array_first(s, i + 1) == sp_array_items(s, p0));
                assert(sp_value(s, i) == sp_array_first(s, i + 1));
            }
        },
        JsonView::Obj { members } => {
            lemma_embed_char(s, i, piece, 0);
            assert(s[i] == '{' && !is_ws('{'));
            if members.len() == 0 {
                lemma_embed_char(s, i, piece, 1);
                assert(s[i + 1] == '}' && !is_ws('}'));
                assert(Seq::<(Seq<char>, JsonView)>::empty() =~= members);
                assert(sp_members_first(s, i + 1) == Some((JsonView::Obj { members }, i + 2)));
                assert(sp_value(s, i) == sp_members_first(s, i + 1));
            } else {
                let d1 = inc_depth(depth);
                let block = ser_pretty_members(members, d1);
                let tail = block + nl_indent(depth) + seq!['}'];
                assert(piece.subrange(1, piece.len() as int) =~= tail);
                lemma_embed(s, i, piece, 1, tail);
                lemma_nl_indent_ws(d1);
                lemma_ser_pretty_members_first(members, d1);
                let p0 = i + 1 + nl_indent(d1).len();
                assert(tail.subrange(0, nl_indent(d1).len() as int) =~= nl_indent(d1));
                lemma_embed(s, i + 1, tail, 0, nl_indent(d1));
                lemma_ws_chunk(s, i + 1, p0, d1);
                lemma_ws_skip_members_first(s, i + 1, p0);
                lemma_embed_char(s, i + 1, tail, nl_indent(d1).len() as int);
                assert(tail[nl_indent(d1).len() as int] == '"');
                assert(!is_ws(s[p0]) && s[p0] != '}');
                assert(canonical(members[0].1));
                lemma_rtp_members(s, i + 1, members, d1, depth);
                lemma_ws_skip_members_items(s, i + 1, p0);
                assert(sp_members_items(s, p0) == sp_members_items(s, i + 1));
                assert(sp_members_first(s, i + 1) == sp_members_items(s, p0));
                assert(sp_value(s, i) == sp_members_first(s, i + 1));
            }
        },
        _ => {
            assert(ser_pretty_value(j, depth) == ser_value(j));
            lemma_rt_value(s, i, j);
        },
    }
}

/// Parsing embedded, pretty-printed array elements — each led in by its
/// indentation, the list closed by the parent's indentation and the
/// bracket — yields them back.
#[verifier::rlimit(50)]
proof fn lemma_rtp_items(s: Seq<char>, i: int, items: Seq<JsonView>, d: nat, dp: nat)
    requires
        items.len() >= 1,
        forall|k: int| 0 <= k < items.len() ==> canonical(#[trigger] items[k]),
        0 <= i,
        i + ser_pretty_items(items, d).len() + nl_indent(dp).len() + 1 <= s.len(),
        s.subrange(
            i,
            i + ser_pretty_items(items, d).len() + nl_indent(dp).len() + 1,
        ) == ser_pretty_items(items, d) + nl_indent(dp) + seq![']'],
    ensures
        sp_array_items(s, i) == Some(
            (
                JsonView::Arr { items },
                i + ser_pretty_items(items, d).len() + nl_indent(dp).len() + 1,
            ),
        ),
        sp_value(s, i) == Some(
            (items[0], i + nl_indent(d).len() + ser_pretty_value(items[0], d).len()),
        ),
    decreases items,
{
    let block = ser_pretty_items(items, d);
    let piece = block + nl_indent(dp) + seq![']'];
    let end = i + piece.len();
    lemma_ser_pretty_items_first(items, d);
    lemma_nl_indent_ws(d);
    lemma_nl_indent_ws(dp);
    let j0 = items[0];
    let sj0 = ser_pretty_value(j0, d);
    lemma_ser_pretty_first_char(j0, d);
    let p0 = i + nl_indent(d).len();
    assert(piece.subrange(0, nl_indent(d).len() as int) =~= nl_indent(d));
    lemma_embed(s, i, piece, 0, nl_indent(d));
    lemma_ws_chunk(s, i, p0, d);
    lemma_ws_skip_value(s, i, p0);
    assert(piece.subrange(p0 - i, p0 - i + sj0.len() as int) =~= sj0);
    lemma_embed(s, i, piece, p0 - i, sj0);
    let k = p0 + sj0.len();
    lemma_embed_char(s, i, piece, k - i);
    let sep = piece[k - i];
    if items.len() == 1 {
        assert(sep == nl_indent(dp)[0] && sep == '\n');
    } else {
        assert(sep == ',');
    }
    assert(!num_extender(sep) && !is_ws(sep) || sep == '\n');
    assert(j0 is Num ==> !num_extender(s[k]));
    lemma_rtp_value(s, p0, j0, d);
    assert(sp_value(s, i) == Some((j0, k)));
    if items.len() == 1 {
        assert(piece.subrange(k - i, end - 1 - i) =~= nl_indent(dp));
        lemma_embed(s, i, piece, k - i, nl_indent(dp));
        lemma_ws_chunk(s, k, end - 1, dp);
        lemma_ws_skip_array_rest(s, k, end - 1);
        lemma_embed_char(s, i, piece, end - 1 - i);
        assert(s[end - 1] == ']' && !is_ws(']'));
        assert(sp_array_rest(s, k) == Some((JsonView::Arr { items: Seq::empty() }, end)));
        assert(seq![j0] + Seq::<JsonView>::empty() =~= items);
    } else {
        let rest = items.drop_first();
        assert(piece.subrange(k + 1 - i, piece.len() as int) =~= ser_pretty_items(rest, d)
            + nl_indent(dp) + seq![']']);
        lemma_embed(s, i, piece, k + 1 - i, ser_pretty_items(rest, d) + nl_indent(dp)
            + seq![']']);
        assert(forall|t: int| 0 <= t < rest.len() ==> canonical(#[trigger] rest[t])) by {
            assert(forall|t: int| 0 <= t < rest.len() ==> #[trigger] rest[t] == items[t + 1]);
        }
        lemma_rtp_items(s, k + 1, rest, d, dp);
        assert(seq![j0] + rest =~= items);
    }
}

/// Parsing embedded, pretty-printed object members yields them back.
#[verifier::rlimit(100)]
proof fn lemma_rtp_members(s: Seq<char>, i: int, members: Seq<(Seq<char>, JsonView)>, d: nat, dp: nat)
    requires
        members.len() >= 1,
        forall|k: int| 0 <= k < members.len() ==> canonical((#[trigger] members[k]).1),
        0 <= i,
        i + ser_pretty_members(members, d).len() + nl_indent(dp).len() + 1 <= s.len(),
        s.subrange(
            i,
            i + ser_pretty_members(members, d).len() + nl_indent(dp).len() + 1,
        ) == ser_pretty_members(members, d) + nl_indent(dp) + seq!['}'],
    ensures
        sp_members_items(s, i) == Some(
            (
                JsonView::Obj { members },
                i + ser_pretty_members(members, d).len() + nl_indent(dp).len() + 1,
            ),
        ),
    decreases members,
{
    let block = ser_pretty_members(members, d);
    let piece = block + nl_indent(dp) + seq!['}'];
    let end = i + piece.len();
    lemma_ser_pretty_members_first(members, d);
    lemma_nl_indent_ws(d);
    lemma_nl_indent_ws(dp);
    let m0 = members[0];
    let skey = ser_string(m0.0);
    let sval = ser_pretty_value(m0.1, d);
    lemma_ser_pretty_first_char(m0.1, d);
    let p0 = i + nl_indent(d).len();
    assert(piece.subrange(0, nl_indent(d).len() as int) =~= nl_indent(d));
    lemma_embed(s, i, piece, 0, nl_indent(d));
    lemma_ws_chunk(s, i, p0, d);
    lemma_ws_skip_members_items(s, i, p0);
    lemma_embed_char(s, i, piece, p0 - i);
    assert(piece[p0 - i] == '"');
    assert(s[p0] == '"' && !is_ws('"'));
    assert(piece.subrange(p0 - i + 1, p0 - i + skey.len() as int) =~= ser_string_body(m0.0)
        + seq!['"']);
    lemma_embed(s, i, piece, p0 - i + 1, ser_string_body(m0.0) + seq!['"']);
    lemma_rt_string_body(s, p0 + 1, m0.0);
    let k1 = p0 + skey.len();
    lemma_embed_char(s, i, piece, k1 - i);
    assert(piece[k1 - i] == ':');
    assert(s[k1] == ':' && !is_ws(':'));
    lemma_embed_char(s, i, piece, k1 + 1 - i);
    assert(piece[k1 + 1 - i] == ' ' && is_ws(' '));
    lemma_ws_skip_value(s, k1 + 1, k1 + 2);
    assert(piece.subrange(k1 + 2 - i, k1 + 2 - i + sval.len() as int) =~= sval);
    lemma_embed(s, i, piece, k1 + 2 - i, sval);
    let k2 = k1 + 2 + sval.len();
    lemma_embed_char(s, i, piece, k2 - i);
    let sep = piece[k2 - i];
    if members.len() == 1 {
        assert(sep == nl_indent(dp)[0] && sep == '\n');
    } else {
        assert(sep == ',');
    }
    assert(m0.1 is Num ==> !num_extender(s[k2]));
    lemma_rtp_value(s, k1 + 2, m0.1, d);
    assert(sp_value(s, k1 + 1) == Some((m0.1, k2)));
    if members.len() == 1 {
        assert(piece.subrange(k2 - i, end - 1 - i) =~= nl_indent(dp));
        lemma_embed(s, i, piece, k2 - i, nl_indent(dp));
        lemma_ws_chunk(s, k2, end - 1, dp);
        lemma_ws_skip_members_rest(s, k2, end - 1);
        lemma_embed_char(s, i, piece, end - 1 - i);
        assert(s[end - 1] == '}' && !is_ws('}'));
        assert(sp_members_rest(s, k2) == Some(
            (JsonView::Obj { members: Seq::empty() }, end),
        ));
        assert((m0.0, m0.1) == m0);
        assert(sp_member_value(s, k1, m0.0) == Some(
            (JsonView::Obj { members: seq![(m0.0, m0.1)] }, end),
        ));
        assert(seq![(m0.0, m0.1)] + Seq::<(Seq<char>, JsonView)>::empty() =~~= members);
    } else {
        let rest = members.drop_first();
        assert(piece.subrange(k2 + 1 - i, piece.len() as int) =~= ser_pretty_members(rest, d)
            + nl_indent(dp) + seq!['}']);
        lemma_embed(s, i, piece, k2 + 1 - i, ser_pretty_members(rest, d) + nl_indent(dp)
            + seq!['}']);
        assert(forall|t: int|
            0 <= t < rest.len() ==> canonical((#[trigger] rest[t]).1)) by {
            assert(forall|t: int|
                0 <= t < rest.len() ==> #[trigger] rest[t] == members[t + 1]);
        }
        lemma_rtp_members(s, k2 + 1, rest, d, dp);
        assert((m0.0, m0.1) == m0);
        assert(seq![(m0.0, m0.1)] + rest =~~= members);
    }
}

/// Round trip at the document level for the pretty form: parsing a
/// canonically pretty-printed value's document yields exactly that
/// value.
pub proof fn lemma_pretty_document_round_trip(j: JsonView)
    requires
        canonical(j),
    ensures
        sp_document(ser_pretty_value(j, 0)) == Some(j),
{
    let s = ser_pretty_value(j, 0);
    assert(s.subrange(0, s.len() as int) =~= s);
    lemma_rtp_value(s, 0, j, 0);
    assert(only_ws_from(s, s.len() as int));
}

/// Writes a line break and the indentation of a nesting depth.
fn write_indent(depth: usize, out: &mut Vec<char>)
    requires
        depth <= 64,
    ensures
        final(out)@ == old(out)@ + nl_indent(depth as nat),
{
    out.push('\n');
    let n = 2 * depth;
    let mut i: usize = 0;
    proof {
        assert(out@ =~= old(out)@ + seq!['\n'] + spaces(0));
    }
    while i < n
        invariant
            n == 2 * depth,
            i <= n,
            out@ == old(out)@ + seq!['\n'] + spaces(i as nat),
        decreases n - i,
    {
        out.push(' ');
        i += 1;
        proof {
            assert(out@ =~= old(out)@ + seq!['\n'] + spaces(i as nat));
        }
    }
    proof {
        assert(old(out)@ + seq!['\n'] + spaces(n as nat) =~= old(out)@ + nl_indent(
            depth as nat,
        ));
    }
}

/// Writes an array's elements pretty-printed, each on its own indented
/// line.
#[verifier::loop_isolation(false)]
#[verifier::rlimit(50)]
fn write_pretty_items(vs: &Vec<JsonValue>, depth: usize, out: &mut Vec<char>)
    requires
        depth <= 64,
    ensures
        final(out)@ == old(out)@ + ser_pretty_items(json_views(vs@), depth as nat),
    decreases vs@,
{
    let mut i: usize = 0;
    proof {
        lemma_json_views_elts(vs@);
        assert(ser_pretty_items(json_views(vs@).take(0), depth as nat)
            =~= Seq::<char>::empty());
        assert(out@ =~= old(out)@ + ser_pretty_items(json_views(vs@).take(0), depth as nat));
    }
    while i < vs.len()
        invariant
            i <= vs@.len(),
            json_views(vs@).len() == vs@.len(),
            forall|k: int|
                0 <= k < vs@.len() ==> json_views(vs@)[k] == json_view(#[trigger] vs@[k]),
            out@ == old(out)@ + ser_pretty_items(json_views(vs@).take(i as int), depth as nat),
        decreases vs@.len() - i,
    {
        if i > 0 {
            out.push(',');
        }
        write_indent(depth, out);
        write_pretty_value(&vs[i], depth, out);
        i += 1;
        proof {
            let views = json_views(vs@);
            assert(views.take(i as int).drop_last() =~= views.take(i - 1));
            assert(views.take(i as int).last() == views[i - 1]);
            assert(out@ =~= old(out)@ + ser_pretty_items(views.take(i as int), depth as nat));
        }
    }
    proof {
        assert(json_views(vs@).take(vs@.len() as int) =~= json_views(vs@));
    }
}

/// Writes an object's members pretty-printed, each on its own indented
/// line, the value one space after the colon.
#[verifier::loop_isolation(false)]
#[verifier::rlimit(50)]
fn write_pretty_members(ms: &Vec<JsonMember>, depth: usize, out: &mut Vec<char>)
    requires
        depth <= 64,
    ensures
        final(out)@ == old(out)@ + ser_pretty_members(member_views(ms@), depth as nat),
    decreases ms@,
{
    let mut i: usize = 0;
    proof {
        lemma_member_views_elts(ms@);
        assert(ser_pretty_members(member_views(ms@).take(0), depth as nat)
            =~= Seq::<char>::empty());
        assert(out@ =~= old(out)@ + ser_pretty_members(member_views(ms@).take(0), depth as nat));
    }
    while i < ms.len()
        invariant
            i <= ms@.len(),
            member_views(ms@).len() == ms@.len(),
            forall|k: int|
                0 <= k < ms@.len() ==> member_views(ms@)[k] == (
                #[trigger] ms@[k].key@,
                json_view(ms@[k].value),
                ),
            out@ == old(out)@ + ser_pretty_members(
                member_views(ms@).take(i as int),
                depth as nat,
            ),
        decreases ms@.len() - i,
    {
        if i > 0 {
            out.push(',');
        }
        write_indent(depth, out);
        write_string(ms[i].key.as_str(), out);
        out.push(':');
        out.push(' ');
        write_pretty_value(&ms[i].value, depth, out);
        i += 1;
        proof {
            let views = member_views(ms@);
            assert(views.take(i as int).drop_last() =~= views.take(i - 1));
            assert(views.take(i as int).last() == views[i - 1]);
            assert(out@ =~= old(out)@ + ser_pretty_members(
                views.take(i as int),
                depth as nat,
            ));
        }
    }
    proof {
        assert(member_views(ms@).take(ms@.len() as int) =~= member_views(ms@));
    }
}

/// Writes one JSON value pretty-printed at a nesting depth.
#[verifier::rlimit(50)]
pub fn write_pretty_value(j: &JsonValue, depth: usize, out: &mut Vec<char>)
    requires
        depth <= 64,
    ensures
        final(out)@ == old(out)@ + ser_pretty_value(json_view(*j), depth as nat),
    decreases *j,
{
    let next = if depth < 64 {
        depth + 1
    } else {
        depth
    };
    proof {
        assert(next as nat == inc_depth(depth as nat));
    }
    match j {
        JsonValue::Arr(vs) => {
            if vs.len() == 0 {
                out.push('[');
                out.push(']');
                proof {
                    assert(json_views(vs@) =~= Seq::<JsonView>::empty());
                    assert(final(out)@ =~= old(out)@ + ser_pretty_value(
                        json_view(*j),
                        depth as nat,
                    ));
                }
                return ;
            }
            out.push('[');
            write_pretty_items(vs, next, out);
            write_indent(depth, out);
            out.push(']');
            proof {
                lemma_json_views_elts(vs@);
                assert(final(out)@ =~= old(out)@ + ser_pretty_value(
                    json_view(*j),
                    depth as nat,
                ));
            }
        },
        JsonValue::Obj(ms) => {
            if ms.len() == 0 {
                out.push('{');
                out.push('}');
                proof {
                    assert(member_views(ms@) =~= Seq::<(Seq<char>, JsonView)>::empty());
                    assert(final(out)@ =~= old(out)@ + ser_pretty_value(
                        json_view(*j),
                        depth as nat,
                    ));
                }
                return ;
            }
            out.push('{');
            write_pretty_members(ms, next, out);
            write_indent(depth, out);
            out.push('}');
            proof {
                lemma_member_views_elts(ms@);
                assert(final(out)@ =~= old(out)@ + ser_pretty_value(
                    json_view(*j),
                    depth as nat,
                ));
            }
        },
        _ => {
            write_value(j, out);
            proof {
                assert(ser_pretty_value(json_view(*j), depth as nat) == ser_value(
                    json_view(*j),
                ));
            }
        },
    }
}

/// Writes one JSON value as a pretty-printed document string.
pub fn value_to_pretty_string(j: &JsonValue) -> (r: String)
    ensures
        r@ == ser_pretty_value(json_view(*j), 0),
{
    let mut out: Vec<char> = Vec::new();
    write_pretty_value(j, 0, &mut out);
    proof {
        assert(out@ =~= ser_pretty_value(json_view(*j), 0));
    }
    crate::strutil::chars_to_string(&out)
}

} // verus!
