//! Validation of uploaded script examples: title, category and content
//! checks, and the word count.  Lengths are measured in UTF-8 bytes of
//! the trimmed text, the unit the limits are stated in.

use vstd::prelude::*;

use crate::numbers::dec_digits;
use crate::validator::sat_i32;

verus! {

/// The fewest bytes an example's content may have, trimmed.
pub const MIN_CONTENT_LEN: usize = 50;

/// The most bytes an example's content may have, trimmed.
pub const MAX_CONTENT_LEN: usize = 100000;

/// The most bytes an example's title may have, trimmed.
pub const MAX_TITLE_LEN: usize = 200;

/// Holds for the whitespace characters, as the standard library's
/// `char::is_whitespace` documents them.
pub open spec fn is_space(c: char) -> bool {
    ||| c == ' '
    ||| c == '\t'
    ||| c == '\n'
    ||| c as int == 11
    ||| c as int == 12
    ||| c == '\r'
    ||| c as int == 0x85
    ||| c as int == 0xA0
    ||| c as int == 0x1680
    ||| (0x2000 <= c as int && c as int <= 0x200A)
    ||| c as int == 0x2028
    ||| c as int == 0x2029
    ||| c as int == 0x202F
    ||| c as int == 0x205F
    ||| c as int == 0x3000
}

/// First position at or after `i` that holds no whitespace.
pub open spec fn trim_start(s: Seq<char>, i: int) -> int
    decreases s.len() - i when 0 <= i <= s.len()
{
    if i < s.len() && is_space(s[i]) {
        trim_start(s, i + 1)
    } else {
        i
    }
}

/// Last position at or before `e` such that nothing but whitespace
/// follows it.
pub open spec fn trim_end(s: Seq<char>, e: int) -> int
    decreases e when 0 <= e <= s.len()
{
    if e > 0 && is_space(s[e - 1]) {
        trim_end(s, e - 1)
    } else {
        e
    }
}

/// The characters of `s` with leading and trailing whitespace removed.
pub open spec fn spec_trimmed(s: Seq<char>) -> Seq<char> {
    let b = trim_start(s, 0);
    let e = trim_end(s, s.len() as int);
    if b <= e {
        s.subrange(b, e)
    } else {
        Seq::empty()
    }
}

/// The UTF-8 byte length of the trimmed text, as a machine word.
pub open spec fn trimmed_byte_len(s: Seq<char>) -> usize {
    vstd::utf8::encode_utf8(spec_trimmed(s)).len() as usize
}

/// Number of whitespace-separated words of `s` from position `i` on;
/// `in_word` tells whether position `i` continues a word already
/// counted.
pub open spec fn words_from(s: Seq<char>, i: int, in_word: bool) -> int
    decreases s.len() - i when 0 <= i
{
    if i >= s.len() {
        0
    } else if is_space(s[i]) {
        words_from(s, i + 1, false)
    } else {
        (if in_word {
            0int
        } else {
            1int
        }) + words_from(s, i + 1, true)
    }
}

/// Number of whitespace-separated words of `s`.
pub open spec fn spec_word_count(s: Seq<char>) -> int {
    words_from(s, 0, false)
}

/// The categories an example may carry.
pub open spec fn valid_categories() -> Seq<Seq<char>> {
    seq![
        "educational"@,
        "business"@,
        "narrative"@,
        "interview"@,
        "documentary"@,
        "user-custom"@,
    ]
}

/// The error a title validation reports, if any: a trimmed-empty title,
/// a title beyond [`MAX_TITLE_LEN`] bytes, or a title holding a line
/// break.
pub open spec fn spec_title_error(s: Seq<char>) -> Option<Seq<char>> {
    let n = trimmed_byte_len(s);
    if spec_trimmed(s).len() == 0 {
        Some("Title cannot be empty"@)
    } else if n > MAX_TITLE_LEN {
        Some("Title too long: "@ + dec_digits(n as nat) + " chars (max 200)"@)
    } else if crate::strutil::contains_seq(s, seq!['\n']) || crate::strutil::contains_seq(
        s,
        seq!['\r'],
    ) {
        Some("Title cannot contain newlines"@)
    } else {
        None
    }
}

/// The error a category validation reports, if any: the category must
/// be one of the fixed names.
pub open spec fn spec_category_error(s: Seq<char>) -> Option<Seq<char>> {
    if exists|i: int| 0 <= i < valid_categories().len() && #[trigger] valid_categories()[i] == s {
        None
    } else {
        Some(
            "Invalid category: '"@ + s
                + "'. Valid options: educational, business, narrative, interview, documentary, user-custom"@,
        )
    }
}

/// The error a content validation reports, if any: the trimmed content
/// must have between [`MIN_CONTENT_LEN`] and [`MAX_CONTENT_LEN`]
/// bytes.
pub open spec fn spec_content_error(s: Seq<char>, field: Seq<char>) -> Option<Seq<char>> {
    let n = trimmed_byte_len(s);
    if n < MIN_CONTENT_LEN {
        Some(field + " too short: "@ + dec_digits(n as nat) + " chars (min 50)"@)
    } else if n > MAX_CONTENT_LEN {
        Some(field + " too long: "@ + dec_digits(n as nat) + " chars (max 100,000)"@)
    } else {
        None
    }
}

/// The error a dimension validation reports, if any: an embedding must
/// have 384 or 768 dimensions.
pub open spec fn spec_dimensions_error(n: int) -> Option<Seq<char>> {
    if n == 384 || n == 768 {
        None
    } else {
        Some(
            "Invalid embedding dimensions: expected 384 or 768, got "@ + dec_digits(n as nat),
        )
    }
}

/// Decides whether `c` is whitespace.
fn is_space_exec(c: char) -> (r: bool)
    ensures
        r == is_space(c),
{
    let v = c as u32;
    v == 0x20 || v == 0x9 || v == 0xA || v == 0xB || v == 0xC || v == 0xD || v == 0x85 || v
        == 0xA0 || v == 0x1680 || (0x2000 <= v && v <= 0x200A) || v == 0x2028 || v == 0x2029 || v
        == 0x202F || v == 0x205F || v == 0x3000
}

/// The trimmed characters of `s`.
fn trimmed_chars(s: &Vec<char>) -> (r: (usize, usize))
    ensures
        r.0 == trim_start(s@, 0),
        r.1 == trim_end(s@, s@.len() as int),
        r.0 <= s@.len(),
        r.1 <= s@.len(),
{
    let n = s.len();
    let mut b: usize = 0;
    while b < n && is_space_exec(s[b])
        invariant
            n == s.len(),
            b <= n,
            trim_start(s@, 0) == trim_start(s@, b as int),
        decreases n - b,
    {
        b += 1;
    }
    let mut e: usize = n;
    while e > 0 && is_space_exec(s[e - 1])
        invariant
            n == s.len(),
            e <= n,
            trim_end(s@, n as int) == trim_end(s@, e as int),
        decreases e,
    {
        e -= 1;
    }
    (b, e)
}

/// Renders a count in decimal.
fn count_to_string(n: u64) -> (r: String)
    ensures
        r@ == dec_digits(n as nat),
{
    let mut out: Vec<char> = Vec::new();
    push_dec(n, &mut out);
    proof {
        assert(out@ =~= dec_digits(n as nat));
    }
    crate::strutil::chars_to_string(&out)
}

/// Appends the decimal digits of `n`.
fn push_dec(n: u64, out: &mut Vec<char>)
    ensures
        final(out)@ == old(out)@ + dec_digits(n as nat),
    decreases n,
{
    if n < 10 {
        out.push(dec_digit_char(n));
        proof {
            assert(final(out)@ =~= old(out)@ + dec_digits(n as nat));
        }
    } else {
        push_dec(n / 10, out);
        out.push(dec_digit_char(n % 10));
        proof {
            assert(final(out)@ =~= old(out)@ + dec_digits(n as nat));
        }
    }
}

/// The digit character of a value below ten.
fn dec_digit_char(d: u64) -> (r: char)
    requires
        d < 10,
    ensures
        r == crate::numbers::digit_char(d as int),
{
    if d == 0 {
        '0'
    } else if d == 1 {
        '1'
    } else if d == 2 {
        '2'
    } else if d == 3 {
        '3'
    } else if d == 4 {
        '4'
    } else if d == 5 {
        '5'
    } else if d == 6 {
        '6'
    } else if d == 7 {
        '7'
    } else if d == 8 {
        '8'
    } else {
        '9'
    }
}

/// Validates an example title; see [`spec_title_error`].
pub fn validate_title(title: &str) -> (r: Result<(), String>)
    ensures
        match r {
            Ok(()) => spec_title_error(title@) is None,
            Err(m) => spec_title_error(title@) == Some(m@),
        },
{
    let chars = crate::strutil::to_char_vec(title);
    let (b, e) = trimmed_chars(&chars);
    if b >= e {
        proof {
            assert(spec_trimmed(title@).len() == 0);
        }
        return Err("Title cannot be empty".to_owned());
    }
    let trimmed = title.substring_char(b, e);
    let n = trimmed.len();
    proof {
        assert(trimmed@ == spec_trimmed(title@));
        assert(n == trimmed_byte_len(title@));
        assert(spec_trimmed(title@).len() > 0);
    }
    if n > MAX_TITLE_LEN {
        let mut m = String::from_str("Title too long: ");
        m.append(count_to_string(n as u64).as_str());
        m.append(" chars (max 200)");
        return Err(m);
    }
    let has_nl = crate::strutil::contains_chars(&chars, "\n");
    let has_cr = crate::strutil::contains_chars(&chars, "\r");
    proof {
        reveal_strlit("\n");
        reveal_strlit("\r");
        assert("\n"@ =~= seq!['\n']);
        assert("\r"@ =~= seq!['\r']);
    }
    if has_nl || has_cr {
        return Err("Title cannot contain newlines".to_owned());
    }
    Ok(())
}

/// Validates an example category; see [`spec_category_error`].
pub fn validate_category(category: &str) -> (r: Result<(), String>)
    ensures
        match r {
            Ok(()) => spec_category_error(category@) is None,
            Err(m) => spec_category_error(category@) == Some(m@),
        },
{
    let ok = crate::strutil::str_eq(category, "educational") || crate::strutil::str_eq(
        category,
        "business",
    ) || crate::strutil::str_eq(category, "narrative") || crate::strutil::str_eq(
        category,
        "interview",
    ) || crate::strutil::str_eq(category, "documentary") || crate::strutil::str_eq(
        category,
        "user-custom",
    );
    if ok {
        proof {
            if category@ == "educational"@ {
                assert(valid_categories()[0] == "educational"@);
            } else if category@ == "business"@ {
                assert(valid_categories()[1] == "business"@);
            } else if category@ == "narrative"@ {
                assert(valid_categories()[2] == "narrative"@);
            } else if category@ == "interview"@ {
                assert(valid_categories()[3] == "interview"@);
            } else if category@ == "documentary"@ {
                assert(valid_categories()[4] == "documentary"@);
            } else {
                assert(valid_categories()[5] == "user-custom"@);
            }
        }
        Ok(())
    } else {
        proof {
            assert(forall|i: int|
                0 <= i < valid_categories().len() ==> #[trigger] valid_categories()[i]
                    != category@);
        }
        let mut m = String::from_str("Invalid category: '");
        m.append(category);
        m.append(
            "'. Valid options: educational, business, narrative, interview, documentary, user-custom",
        );
        Err(m)
    }
}

/// Validates an example's content length; see [`spec_content_error`].
pub fn validate_text_content(text: &str, field_name: &str) -> (r: Result<(), String>)
    ensures
        match r {
            Ok(()) => spec_content_error(text@, field_name@) is None,
            Err(m) => spec_content_error(text@, field_name@) == Some(m@),
        },
{
    let chars = crate::strutil::to_char_vec(text);
    let (b, e) = trimmed_chars(&chars);
    let n = if b >= e {
        proof {
            assert(spec_trimmed(text@).len() == 0);
            assert(vstd::utf8::encode_utf8(spec_trimmed(text@)) =~= Seq::<u8>::empty());
        }
        0
    } else {
        let trimmed = text.substring_char(b, e);
        proof {
            assert(trimmed@ == spec_trimmed(text@));
        }
        trimmed.len()
    };
    proof {
        assert(n == trimmed_byte_len(text@));
    }
    if n < MIN_CONTENT_LEN {
        let mut m = field_name.to_owned();
        m.append(" too short: ");
        m.append(count_to_string(n as u64).as_str());
        m.append(" chars (min 50)");
        return Err(m);
    }
    if n > MAX_CONTENT_LEN {
        let mut m = field_name.to_owned();
        m.append(" too long: ");
        m.append(count_to_string(n as u64).as_str());
        m.append(" chars (max 100,000)");
        return Err(m);
    }
    Ok(())
}

/// Validates an embedding's dimension count; see
/// [`spec_dimensions_error`].
pub fn validate_embedding_dimensions(dimension_count: usize) -> (r: Result<(), String>)
    ensures
        match r {
            Ok(()) => spec_dimensions_error(dimension_count as int) is None,
            Err(m) => spec_dimensions_error(dimension_count as int) == Some(m@),
        },
{
    if dimension_count == 384 || dimension_count == 768 {
        Ok(())
    } else {
        let mut m = String::from_str("Invalid embedding dimensions: expected 384 or 768, got ");
        m.append(count_to_string(dimension_count as u64).as_str());
        Err(m)
    }
}

/// Counts the whitespace-separated words of `text`, reporting the
/// greatest 32-bit value for a count beyond it.
pub fn calculate_word_count(text: &str) -> (r: i32)
    ensures
        r == sat_i32(spec_word_count(text@)),
{
    let chars = crate::strutil::to_char_vec(text);
    let n = chars.len();
    let mut count: usize = 0;
    let mut in_word = false;
    let mut i: usize = 0;
    proof {
        assert(spec_word_count(text@) == count + words_from(chars@, 0, false));
    }
    while i < n
        invariant
            n == chars.len(),
            chars@ == text@,
            i <= n,
            count <= i,
            spec_word_count(text@) == count + words_from(chars@, i as int, in_word),
        decreases n - i,
    {
        if is_space_exec(chars[i]) {
            in_word = false;
        } else {
            if !in_word {
                count += 1;
            }
            in_word = true;
        }
        i += 1;
    }
    proof {
        assert(words_from(chars@, n as int, in_word) == 0);
        lemma_words_from_bounds(chars@, 0, false);
    }
    if count > i32::MAX as usize {
        i32::MAX
    } else {
        count as i32
    }
}

/// A word count is never negative.
proof fn lemma_words_from_bounds(s: Seq<char>, i: int, in_word: bool)
    requires
        0 <= i,
    ensures
        words_from(s, i, in_word) >= 0,
    decreases s.len() - i,
{
    if i < s.len() {
        lemma_words_from_bounds(s, i + 1, !is_space(s[i]) || (in_word && false));
        lemma_words_from_bounds(s, i + 1, true);
        lemma_words_from_bounds(s, i + 1, false);
    }
}

} // verus!
