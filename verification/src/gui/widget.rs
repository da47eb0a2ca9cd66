//! Small display helpers: clock times and avatar initials.

use crate::num::{push_two_digits, two_digit_string};
use crate::text::{
    all_ascii, ascii_upper, chars_of, is_whitespace, is_ws, take_chars, take_chars_str,
};
use vstd::prelude::*;

verus! {

/// The hour and minute of an RFC 3339 timestamp, as chrono reads it; `None`
/// when chrono does not accept the text.
pub uninterp spec fn rfc3339_clock_time(ts: Seq<char>) -> Option<(u32, u32)>;

/// `chrono::DateTime::parse_from_rfc3339`, reduced to the hour and minute of
/// the parsed time in its own offset (`Timelike::hour`, `Timelike::minute`).
/// The contract names the result and adds what chrono documents of the two
/// fields: an hour below 24 and a minute below 60. Which texts chrono
/// accepts is left unsaid.
#[verifier::external_body]
fn parse_rfc3339_clock(ts: &str) -> (r: Option<(u32, u32)>)
    ensures
        r == rfc3339_clock_time(ts@),
        r matches Some((h, m)) ==> h < 24 && m < 60,
{
    match chrono::DateTime::parse_from_rfc3339(ts) {
        Ok(dt) => Some((chrono::Timelike::hour(&dt), chrono::Timelike::minute(&dt))),
        Err(_) => None,
    }
}

/// "HH:MM" of a timestamp: the clock time when it parses as RFC 3339, else
/// its first 16 characters.
pub open spec fn timestamp_label(ts: Seq<char>) -> Seq<char> {
    match rfc3339_clock_time(ts) {
        Some((h, m)) => two_digit_string(h as nat) + seq![':'] + two_digit_string(m as nat),
        None => take_chars(ts, 16),
    }
}

/// Format an ISO 8601 timestamp as a short HH:MM display.
pub fn format_timestamp(ts: &str) -> (r: String)
    ensures
        r@ == timestamp_label(ts@),
{
    match parse_rfc3339_clock(ts) {
        Some((h, m)) => {
            let mut s = String::new();
            push_two_digits(&mut s, h);
            crate::text::push_char(&mut s, ':');
            push_two_digits(&mut s, m);
            proof {
                assert(s@ =~= two_digit_string(h as nat) + seq![':'] + two_digit_string(m as nat));
            }
            s
        },
        None => take_chars_str(ts, 16),
    }
}

/// The first character of every whitespace-separated word of `s`, in order.
pub open spec fn word_starts(s: Seq<char>) -> Seq<char>
    decreases s.len(),
{
    if s.len() == 0 {
        Seq::empty()
    } else {
        let prev = word_starts(s.drop_last());
        let c = s.last();
        if !is_ws(c) && (s.len() == 1 || is_ws(s[s.len() - 2])) {
            prev.push(c)
        } else {
            prev
        }
    }
}

/// At most the first two elements of `s`.
pub open spec fn first_two(s: Seq<char>) -> Seq<char> {
    if s.len() <= 2 {
        s
    } else {
        s.take(2)
    }
}

/// The result of `str::to_uppercase`.
pub uninterp spec fn uppercased(s: Seq<char>) -> Seq<char>;

/// `str::to_uppercase`: the Unicode uppercase mapping of `s`. The contract
/// names the result and states it for ASCII text, where each letter `a` to
/// `z` becomes `A` to `Z` and every other character stays; what non-ASCII
/// characters become (some expand to several) is left unsaid.
#[verifier::external_body]
fn to_uppercase(s: &str) -> (r: String)
    ensures
        r@ == uppercased(s@),
        all_ascii(s@) ==> r@ == s@.map_values(|c: char| ascii_upper(c)),
{
    s.to_uppercase()
}

/// Initials for an avatar placeholder: the first letters of the first two
/// words of `name`, in upper case.
pub fn initials(name: &str) -> (r: String)
    ensures
        r@ == uppercased(first_two(word_starts(name@))),
        all_ascii(name@) ==> r@ == first_two(word_starts(name@)).map_values(
            |c: char| ascii_upper(c),
        ),
{
    let v = chars_of(name);
    let mut picked = String::new();
    let mut prev_ws = true;
    let mut i: usize = 0;
    proof {
        assert(name@.take(0) =~= Seq::<char>::empty());
    }
    while i < v.len()
        invariant
            v@ == name@,
            i <= v.len(),
            prev_ws == (i == 0 || is_ws(name@[i - 1])),
            picked@ == first_two(word_starts(name@.take(i as int))),
        decreases v.len() - i,
    {
        let c = v[i];
        let ws = is_whitespace(c);
        proof {
            let t = name@.take(i + 1);
            assert(t.drop_last() =~= name@.take(i as int));
            assert(t.last() == c);
            if i > 0 {
                assert(t[t.len() - 2] == name@[i - 1]);
            }
        }
        if !ws && prev_ws && picked.as_str().unicode_len() < 2 {
            crate::text::push_char(&mut picked, c);
            proof {
                assert(picked@ =~= first_two(word_starts(name@.take(i + 1))));
            }
        } else {
            proof {
                let w = word_starts(name@.take(i as int));
                if !ws && prev_ws {
                    assert(first_two(w.push(c)) =~= first_two(w));
                }
            }
        }
        prev_ws = ws;
        i = i + 1;
    }
    proof {
        assert(name@.take(v.len() as int) =~= name@);
        if all_ascii(name@) {
            lemma_word_starts_ascii(name@);
        }
    }
    to_uppercase(picked.as_str())
}

/// The first characters of words of ASCII text are ASCII, and so are the
/// first two of them.
proof fn lemma_word_starts_ascii(s: Seq<char>)
    requires
        all_ascii(s),
    ensures
        all_ascii(word_starts(s)),
        all_ascii(first_two(word_starts(s))),
    decreases s.len(),
{
    if s.len() > 0 {
        let t = s.drop_last();
        assert(all_ascii(t)) by {
            assert forall|i: int| 0 <= i < t.len() implies (#[trigger] t[i] as int) < 128 by {
                assert(t[i] == s[i]);
            }
        }
        lemma_word_starts_ascii(t);
        assert(s.last() == s[s.len() - 1]);
    }
    let w = word_starts(s);
    assert forall|i: int| 0 <= i < first_two(w).len() implies (#[trigger] first_two(w)[i] as int)
        < 128 by {
        assert(first_two(w)[i] == w[i]);
    }
}

} // verus!
