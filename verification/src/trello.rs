//! Extraction of a Trello card id out of a card URL: the id is the run of
//! alphanumeric characters, at least 8 and at most 24 of them, that
//! follows the leftmost occurrence of `trello.com/c/` in the URL.

use vstd::prelude::*;

use crate::strutil::{chars_to_string, occurs_at, occurs_at_from, to_char_vec};

verus! {

/// The number of characters of the `trello.com/c/` marker.
pub const CARD_MARKER_LEN: usize = 13;

/// The fewest characters a card id may have.
pub const CARD_ID_MIN_LEN: usize = 8;

/// The most characters a card id may have.
pub const CARD_ID_MAX_LEN: usize = 24;

/// Holds for the ASCII letters and digits.
pub open spec fn is_alnum(c: char) -> bool {
    ('a' <= c && c <= 'z') || ('A' <= c && c <= 'Z') || ('0' <= c && c <= '9')
}

/// Length of the run of alphanumeric characters starting at `i`.
pub open spec fn alnum_run_len(s: Seq<char>, i: int) -> int
    decreases s.len() - i when 0 <= i <= s.len()
{
    if i < s.len() && is_alnum(s[i]) {
        1 + alnum_run_len(s, i + 1)
    } else {
        0
    }
}

/// A card id can be read at position `p`: the marker occurs there and at
/// least [`CARD_ID_MIN_LEN`] alphanumeric characters follow it.
pub open spec fn candidate_at(s: Seq<char>, p: int) -> bool {
    occurs_at(s, "trello.com/c/"@, p) && alnum_run_len(s, p + CARD_MARKER_LEN) >= CARD_ID_MIN_LEN
}

/// The card id read at position `p`: the alphanumeric run after the
/// marker, capped at [`CARD_ID_MAX_LEN`] characters.
pub open spec fn card_id_at(s: Seq<char>, p: int) -> Seq<char> {
    let start = p + CARD_MARKER_LEN;
    let run = alnum_run_len(s, start);
    let take = if run > CARD_ID_MAX_LEN {
        CARD_ID_MAX_LEN as int
    } else {
        run
    };
    s.subrange(start, start + take)
}

/// The card id of the leftmost candidate position at or after `p`, if
/// any.
pub open spec fn extract_from(s: Seq<char>, p: int) -> Option<Seq<char>>
    decreases s.len() - p when 0 <= p
{
    if p + CARD_MARKER_LEN > s.len() {
        None
    } else if candidate_at(s, p) {
        Some(card_id_at(s, p))
    } else {
        extract_from(s, p + 1)
    }
}

/// The card id a URL carries: the id at its leftmost candidate position,
/// if any.
pub open spec fn spec_extract_card_id(s: Seq<char>) -> Option<Seq<char>> {
    extract_from(s, 0)
}

/// Decides whether `c` is an ASCII letter or digit.
fn is_alnum_exec(c: char) -> (r: bool)
    ensures
        r == is_alnum(c),
{
    ('a' <= c && c <= 'z') || ('A' <= c && c <= 'Z') || ('0' <= c && c <= '9')
}

/// Counts the alphanumeric run of `s` starting at `start`.
fn alnum_run_exec(s: &Vec<char>, start: usize) -> (r: usize)
    requires
        start <= s@.len(),
    ensures
        r == alnum_run_len(s@, start as int),
        start + r <= s@.len(),
{
    let mut j: usize = start;
    while j < s.len() && is_alnum_exec(s[j])
        invariant
            start <= j <= s.len(),
            alnum_run_len(s@, start as int) == (j - start) + alnum_run_len(s@, j as int),
        decreases s@.len() - j,
    {
        j += 1;
    }
    j - start
}

/// Extracts the Trello card id from a card URL, following the leftmost
/// occurrence of the `trello.com/c/` marker, or returns `None` when the
/// URL carries none.
pub fn extract_trello_card_id(url: &str) -> (r: Option<String>)
    ensures
        match r {
            Some(id) => spec_extract_card_id(url@) == Some(id@),
            None => spec_extract_card_id(url@) is None,
        },
{
    let s = to_char_vec(url);
    proof {
        reveal_strlit("trello.com/c/");
    }
    if s.len() < CARD_MARKER_LEN {
        return None;
    }
    let last = s.len() - CARD_MARKER_LEN;
    let mut p: usize = 0;
    while p <= last
        invariant
            s@ == url@,
            CARD_MARKER_LEN <= s.len(),
            last == s.len() - CARD_MARKER_LEN,
            p <= last + 1,
            extract_from(s@, 0) == extract_from(s@, p as int),
            "trello.com/c/"@.len() == CARD_MARKER_LEN,
        decreases last + 1 - p,
    {
        if occurs_at_from(&s, "trello.com/c/", p) {
            let start = p + CARD_MARKER_LEN;
            let run = alnum_run_exec(&s, start);
            if run >= CARD_ID_MIN_LEN {
                let take = if run > CARD_ID_MAX_LEN {
                    CARD_ID_MAX_LEN
                } else {
                    run
                };
                let mut id_chars: Vec<char> = Vec::new();
                let mut k: usize = 0;
                while k < take
                    invariant
                        take <= run,
                        start + run <= s.len(),
                        k <= take,
                        id_chars@ == s@.subrange(start as int, start + k),
                    decreases take - k,
                {
                    id_chars.push(s[start + k]);
                    k += 1;
                    proof {
                        assert(id_chars@ =~= s@.subrange(start as int, start + k));
                    }
                }
                proof {
                    assert(candidate_at(s@, p as int));
                    assert(id_chars@ =~= card_id_at(s@, p as int));
                }
                return Some(chars_to_string(&id_chars));
            }
        }
        p += 1;
    }
    None
}

} // verus!
