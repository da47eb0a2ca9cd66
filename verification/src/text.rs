//! Small verified string utilities, specified over `Seq<char>`.
//!
//! Every function here works on the characters of a string and states its
//! result as a spec function over `Seq<char>`, so that callers can reason
//! about prefixes, separators and truncation without looking at bytes.

use vstd::prelude::*;

verus! {

// ---------------------------------------------------------------------------
// Specifications
// ---------------------------------------------------------------------------

/// Whether `prefix` is a prefix of `s`.
pub open spec fn is_prefix_of(prefix: Seq<char>, s: Seq<char>) -> bool {
    prefix.len() <= s.len() && s.subrange(0, prefix.len() as int) == prefix
}

/// `s` without `prefix` when it starts with it, `s` itself otherwise
/// (the value of `s.strip_prefix(prefix).unwrap_or(s)`).
pub open spec fn strip_prefix_or_self(s: Seq<char>, prefix: Seq<char>) -> Seq<char> {
    if is_prefix_of(prefix, s) {
        s.subrange(prefix.len() as int, s.len() as int)
    } else {
        s
    }
}

/// Whether `needle` occurs in `s` at position `i`.
pub open spec fn occurs_at(s: Seq<char>, needle: Seq<char>, i: int) -> bool {
    0 <= i && i + needle.len() <= s.len() && s.subrange(i, i + needle.len()) == needle
}

/// Whether `needle` occurs anywhere in `s`.
pub open spec fn contains_seq(s: Seq<char>, needle: Seq<char>) -> bool {
    exists|i: int| occurs_at(s, needle, i)
}

/// Whether the character `c` occurs in `s`.
pub open spec fn has_char(s: Seq<char>, c: char) -> bool {
    exists|i: int| 0 <= i < s.len() && s[i] == c
}

/// The pieces of `s` between occurrences of `sep`, with `cur` prepended to the
/// first piece (the pieces that `str::split(sep)` yields).
pub open spec fn split_acc(cur: Seq<char>, rest: Seq<char>, sep: char) -> Seq<Seq<char>>
    decreases rest.len(),
{
    if rest.len() == 0 {
        seq![cur]
    } else if rest[0] == sep {
        seq![cur] + split_acc(Seq::empty(), rest.drop_first(), sep)
    } else {
        split_acc(cur.push(rest[0]), rest.drop_first(), sep)
    }
}

/// The pieces of `s` separated by `sep`; always at least one piece.
pub open spec fn split_seq(s: Seq<char>, sep: char) -> Seq<Seq<char>> {
    split_acc(Seq::empty(), s, sep)
}

/// The part of `s` before the first `sep` (all of `s` when there is none).
pub open spec fn before_first(s: Seq<char>, sep: char) -> Seq<char> {
    split_seq(s, sep)[0]
}

/// The part of `s` after the last `sep` (all of `s` when there is none).
pub open spec fn after_last(s: Seq<char>, sep: char) -> Seq<char> {
    split_seq(s, sep).last()
}

/// The first `n` characters of `s` (all of `s` when it is shorter).
pub open spec fn take_chars(s: Seq<char>, n: nat) -> Seq<char> {
    if n <= s.len() {
        s.take(n as int)
    } else {
        s
    }
}

/// Unicode `White_Space` characters, as `char::is_whitespace` defines them.
pub open spec fn is_ws(c: char) -> bool {
    let u = c as u32;
    (0x9 <= u && u <= 0xD) || u == 0x20 || u == 0x85 || u == 0xA0 || u == 0x1680 || (0x2000 <= u
        && u <= 0x200A) || u == 0x2028 || u == 0x2029 || u == 0x202F || u == 0x205F || u == 0x3000
}

/// Number of leading whitespace characters of `s`.
pub open spec fn lead_ws(s: Seq<char>) -> nat
    decreases s.len(),
{
    if s.len() == 0 {
        0
    } else if is_ws(s[0]) {
        1 + lead_ws(s.drop_first())
    } else {
        0
    }
}

/// Number of trailing whitespace characters of `s`.
pub open spec fn trail_ws(s: Seq<char>) -> nat
    decreases s.len(),
{
    if s.len() == 0 {
        0
    } else if is_ws(s.last()) {
        1 + trail_ws(s.drop_last())
    } else {
        0
    }
}

/// `s` without leading and trailing whitespace (the value of `str::trim`).
pub open spec fn trim_seq(s: Seq<char>) -> Seq<char> {
    if lead_ws(s) == s.len() {
        Seq::empty()
    } else {
        s.subrange(lead_ws(s) as int, s.len() - trail_ws(s))
    }
}

/// `s` with every non-overlapping occurrence of the non-empty `from`,
/// scanning left to right, replaced by `to` (the value of `str::replace`).
pub open spec fn replace_seq(s: Seq<char>, from: Seq<char>, to: Seq<char>) -> Seq<char>
    decreases s.len(),
{
    if s.len() == 0 {
        Seq::empty()
    } else if from.len() > 0 && is_prefix_of(from, s) {
        to + replace_seq(s.subrange(from.len() as int, s.len() as int), from, to)
    } else {
        seq![s[0]] + replace_seq(s.drop_first(), from, to)
    }
}

/// Number of bytes of the UTF-8 encoding of `c`.
pub open spec fn utf8_width(c: char) -> nat {
    let u = c as u32;
    if u < 0x80 {
        1
    } else if u < 0x800 {
        2
    } else if u < 0x10000 {
        3
    } else {
        4
    }
}

/// The bytes of the UTF-8 encoding of `c`, each as an integer below 256.
pub open spec fn utf8_bytes(c: char) -> Seq<int> {
    let n = c as int;
    if n < 0x80 {
        seq![n]
    } else if n < 0x800 {
        seq![0xC0 + n / 64, 0x80 + n % 64]
    } else if n < 0x10000 {
        seq![0xE0 + n / 4096, 0x80 + (n / 64) % 64, 0x80 + n % 64]
    } else {
        seq![0xF0 + n / 262144, 0x80 + (n / 4096) % 64, 0x80 + (n / 64) % 64, 0x80 + n % 64]
    }
}

/// Whether every character of `s` is ASCII.
pub open spec fn all_ascii(s: Seq<char>) -> bool {
    forall|i: int| 0 <= i < s.len() ==> (#[trigger] s[i] as int) < 128
}

/// `c` with an ASCII lower-case letter made upper case.
pub open spec fn ascii_upper(c: char) -> char {
    if 'a' <= c && c <= 'z' {
        ((c as int) - 32) as char
    } else {
        c
    }
}

/// `c` with an ASCII upper-case letter made lower case.
pub open spec fn ascii_lower(c: char) -> char {
    if 'A' <= c && c <= 'Z' {
        ((c as int) + 32) as char
    } else {
        c
    }
}

/// Number of bytes of the UTF-8 encoding of `s` (the value of `str::len`).
pub open spec fn utf8_len(s: Seq<char>) -> nat
    decreases s.len(),
{
    if s.len() == 0 {
        0
    } else {
        utf8_width(s[0]) + utf8_len(s.drop_first())
    }
}

/// The longest prefix of `s` whose UTF-8 encoding has at most `n` bytes.
pub open spec fn take_bytes(s: Seq<char>, n: nat) -> Seq<char>
    decreases s.len(),
{
    if s.len() == 0 || utf8_width(s[0]) > n {
        Seq::empty()
    } else {
        seq![s[0]] + take_bytes(s.drop_first(), (n - utf8_width(s[0])) as nat)
    }
}

/// The pieces joined with `sep` between consecutive pieces (`slice::join`).
pub open spec fn join_seq(parts: Seq<Seq<char>>, sep: Seq<char>) -> Seq<char>
    decreases parts.len(),
{
    if parts.len() == 0 {
        Seq::empty()
    } else if parts.len() == 1 {
        parts[0]
    } else {
        join_seq(parts.drop_last(), sep) + sep + parts.last()
    }
}

/// Whether byte offset `n` falls on a character boundary of `s`, so that the
/// byte slice `&s[..n]` does not panic.
pub open spec fn is_byte_boundary(s: Seq<char>, n: nat) -> bool {
    n <= utf8_len(s) && utf8_len(take_bytes(s, n)) == n
}

// ---------------------------------------------------------------------------
// Lemmas
// ---------------------------------------------------------------------------

/// Every split has at least one piece.
pub proof fn lemma_split_acc_nonempty(cur: Seq<char>, rest: Seq<char>, sep: char)
    ensures
        split_acc(cur, rest, sep).len() >= 1,
    decreases rest.len(),
{
    if rest.len() == 0 {
    } else if rest[0] == sep {
        lemma_split_acc_nonempty(Seq::empty(), rest.drop_first(), sep);
    } else {
        lemma_split_acc_nonempty(cur.push(rest[0]), rest.drop_first(), sep);
    }
}

/// Splitting a string without the separator yields the string itself.
pub proof fn lemma_split_acc_no_sep(cur: Seq<char>, rest: Seq<char>, sep: char)
    requires
        !has_char(rest, sep),
    ensures
        split_acc(cur, rest, sep) == seq![cur + rest],
    decreases rest.len(),
{
    if rest.len() == 0 {
        assert(cur + rest =~= cur);
    } else {
        assert(rest[0] != sep);
        assert(!has_char(rest.drop_first(), sep)) by {
            if has_char(rest.drop_first(), sep) {
                let i = choose|i: int| 0 <= i < rest.drop_first().len() && rest.drop_first()[i] == sep;
                assert(rest[i + 1] == sep);
            }
        }
        lemma_split_acc_no_sep(cur.push(rest[0]), rest.drop_first(), sep);
        assert(cur.push(rest[0]) + rest.drop_first() =~= cur + rest);
    }
}

/// Splitting at a first separator: the piece before it, then the split of
/// what follows.
pub proof fn lemma_split_acc_one_sep(cur: Seq<char>, head: Seq<char>, rest: Seq<char>, sep: char)
    requires
        !has_char(head, sep),
    ensures
        split_acc(cur, head + seq![sep] + rest, sep) == seq![cur + head] + split_acc(
            Seq::empty(),
            rest,
            sep,
        ),
    decreases head.len(),
{
    let s = head + seq![sep] + rest;
    if head.len() == 0 {
        assert(s[0] == sep);
        assert(s.drop_first() =~= rest);
        assert(cur + head =~= cur);
    } else {
        assert(s[0] == head[0]);
        assert(head[0] != sep);
        let t = head.drop_first();
        assert(!has_char(t, sep)) by {
            if has_char(t, sep) {
                let i = choose|i: int| 0 <= i < t.len() && t[i] == sep;
                assert(head[i + 1] == sep);
            }
        }
        assert(s.drop_first() =~= t + seq![sep] + rest);
        lemma_split_acc_one_sep(cur.push(head[0]), t, rest, sep);
        assert(cur.push(head[0]) + t =~= cur + head);
    }
}

/// Text split at its only separator gives the two sides.
pub proof fn lemma_split_two(a: Seq<char>, b: Seq<char>, sep: char)
    requires
        !has_char(a, sep),
        !has_char(b, sep),
    ensures
        split_seq(a + seq![sep] + b, sep) == seq![a, b],
{
    lemma_split_acc_one_sep(Seq::empty(), a, b, sep);
    lemma_split_acc_no_sep(Seq::empty(), b, sep);
    assert(Seq::<char>::empty() + a =~= a);
    assert(Seq::<char>::empty() + b =~= b);
    assert(seq![a] + seq![b] =~= seq![a, b]);
}

/// Replacing leaves text alone when it lacks the first character of `from`.
pub proof fn lemma_replace_absent(s: Seq<char>, from: Seq<char>, to: Seq<char>)
    requires
        from.len() > 0,
        !has_char(s, from[0]),
    ensures
        replace_seq(s, from, to) == s,
    decreases s.len(),
{
    if s.len() > 0 {
        assert(s[0] != from[0]);
        assert(!is_prefix_of(from, s)) by {
            if is_prefix_of(from, s) {
                assert(s.subrange(0, from.len() as int)[0] == s[0]);
            }
        }
        let t = s.drop_first();
        assert(!has_char(t, from[0])) by {
            if has_char(t, from[0]) {
                let i = choose|i: int| 0 <= i < t.len() && t[i] == from[0];
                assert(s[i + 1] == from[0]);
            }
        }
        lemma_replace_absent(t, from, to);
        assert(seq![s[0]] + t =~= s);
    }
}

/// Replacing passes over a prefix that lacks the first character of `from`.
pub proof fn lemma_replace_after_plain(a: Seq<char>, t: Seq<char>, from: Seq<char>, to: Seq<char>)
    requires
        from.len() > 0,
        !has_char(a, from[0]),
    ensures
        replace_seq(a + t, from, to) == a + replace_seq(t, from, to),
    decreases a.len(),
{
    if a.len() > 0 {
        let s = a + t;
        assert(s[0] == a[0]);
        assert(a[0] != from[0]);
        assert(!is_prefix_of(from, s)) by {
            if is_prefix_of(from, s) {
                assert(s.subrange(0, from.len() as int)[0] == s[0]);
            }
        }
        let a1 = a.drop_first();
        assert(!has_char(a1, from[0])) by {
            if has_char(a1, from[0]) {
                let i = choose|i: int| 0 <= i < a1.len() && a1[i] == from[0];
                assert(a[i + 1] == from[0]);
            }
        }
        assert(s.drop_first() =~= a1 + t);
        lemma_replace_after_plain(a1, t, from, to);
        assert(seq![a[0]] + (a1 + replace_seq(t, from, to)) =~= a + replace_seq(t, from, to));
    } else {
        assert(a + t =~= t);
        assert(a + replace_seq(t, from, to) =~= replace_seq(t, from, to));
    }
}

/// Replacing at an occurrence at the very start.
pub proof fn lemma_replace_at_start(b: Seq<char>, from: Seq<char>, to: Seq<char>)
    requires
        from.len() > 0,
    ensures
        replace_seq(from + b, from, to) == to + replace_seq(b, from, to),
{
    let s = from + b;
    assert(s.subrange(0, from.len() as int) =~= from);
    assert(is_prefix_of(from, s));
    assert(s.subrange(from.len() as int, s.len() as int) =~= b);
}

/// The UTF-8 length of a concatenation is the sum of the lengths.
pub proof fn lemma_utf8_len_concat(a: Seq<char>, b: Seq<char>)
    ensures
        utf8_len(a + b) == utf8_len(a) + utf8_len(b),
    decreases a.len(),
{
    if a.len() == 0 {
        assert(a + b =~= b);
    } else {
        lemma_utf8_len_concat(a.drop_first(), b);
        assert((a + b).drop_first() =~= a.drop_first() + b);
    }
}

/// One step of `take_bytes` from a position `i` of the string.
proof fn lemma_take_bytes_step(s: Seq<char>, i: int, n: nat)
    requires
        0 <= i < s.len(),
    ensures
        utf8_width(s[i]) > n ==> take_bytes(s.skip(i), n) == Seq::<char>::empty(),
        utf8_width(s[i]) <= n ==> take_bytes(s.skip(i), n) == seq![s[i]] + take_bytes(
            s.skip(i + 1),
            (n - utf8_width(s[i])) as nat,
        ),
{
    assert(s.skip(i)[0] == s[i]);
    assert(s.skip(i).drop_first() =~= s.skip(i + 1));
}

// ---------------------------------------------------------------------------
// Executable functions
// ---------------------------------------------------------------------------

/// Appends one character to a string.
#[verifier::external_body]
pub(crate) fn push_char(s: &mut String, c: char)
    ensures
        final(s)@ == old(s)@.push(c),
{
    s.push(c);
}

/// Collects the characters of `s` into a vector.
pub fn chars_of(s: &str) -> (v: Vec<char>)
    ensures
        v@ == s@,
{
    let n = s.unicode_len();
    let mut v: Vec<char> = Vec::new();
    let mut i: usize = 0;
    while i < n
        invariant
            n == s@.len(),
            i <= n,
            v@ == s@.subrange(0, i as int),
        decreases n - i,
    {
        v.push(s.get_char(i));
        i = i + 1;
    }
    v
}

/// Builds a string from the characters `v[lo..hi]`.
pub fn string_from_range(v: &Vec<char>, lo: usize, hi: usize) -> (s: String)
    requires
        lo <= hi <= v.len(),
    ensures
        s@ == v@.subrange(lo as int, hi as int),
{
    let mut s = String::new();
    let mut i = lo;
    while i < hi
        invariant
            lo <= i <= hi <= v.len(),
            s@ == v@.subrange(lo as int, i as int),
        decreases hi - i,
    {
        push_char(&mut s, v[i]);
        i = i + 1;
    }
    s
}

/// Copies a string slice into a new `String`.
pub fn to_string(s: &str) -> (r: String)
    ensures
        r@ == s@,
{
    s.to_owned()
}

/// Concatenates two strings.
pub fn concat(a: &str, b: &str) -> (r: String)
    ensures
        r@ == a@ + b@,
{
    let mut r = a.to_owned();
    r.append(b);
    r
}

/// Joins the strings with `sep` between consecutive ones (`parts.join(sep)`).
pub fn join_strings(parts: &Vec<String>, sep: &str) -> (r: String)
    ensures
        r@ == join_seq(parts@.map_values(|p: String| p@), sep@),
{
    let ghost views = parts@.map_values(|p: String| p@);
    let mut r = String::new();
    let mut i: usize = 0;
    while i < parts.len()
        invariant
            i <= parts.len(),
            views == parts@.map_values(|p: String| p@),
            r@ == join_seq(views.take(i as int), sep@),
        decreases parts.len() - i,
    {
        proof {
            assert(views.take(i + 1).drop_last() =~= views.take(i as int));
            assert(views.take(i + 1).last() == parts@[i as int]@);
        }
        if i > 0 {
            r.append(sep);
        } else {
            assert(views.take(1) =~= seq![parts@[0]@]);
        }
        r.append(parts[i].as_str());
        i = i + 1;
    }
    proof {
        assert(views.take(parts.len() as int) =~= views);
    }
    r
}

/// Whether `v[at..]` starts with `p`.
fn seq_matches_at(v: &Vec<char>, p: &Vec<char>, at: usize) -> (b: bool)
    requires
        at <= v.len(),
    ensures
        b == occurs_at(v@, p@, at as int),
{
    if p.len() > v.len() - at {
        return false;
    }
    let mut i: usize = 0;
    while i < p.len()
        invariant
            at + p.len() <= v.len(),
            i <= p.len(),
            forall|j: int| 0 <= j < i ==> v@[at + j] == p@[j],
        decreases p.len() - i,
    {
        if v[at + i] != p[i] {
            assert(v@.subrange(at as int, at + p.len())[i as int] != p@[i as int]);
            return false;
        }
        i = i + 1;
    }
    assert(v@.subrange(at as int, at + p.len()) =~= p@);
    true
}

/// Returns whether `s` starts with `prefix`.
pub fn starts_with(s: &str, prefix: &str) -> (b: bool)
    ensures
        b == is_prefix_of(prefix@, s@),
{
    let sv = chars_of(s);
    let pv = chars_of(prefix);
    seq_matches_at(&sv, &pv, 0)
}

/// Whether two strings hold the same characters (`a == b`).
pub fn eq_str(a: &str, b: &str) -> (r: bool)
    ensures
        r == (a@ == b@),
{
    let av = chars_of(a);
    let bv = chars_of(b);
    if av.len() != bv.len() {
        return false;
    }
    let r = seq_matches_at(&av, &bv, 0);
    proof {
        if r {
            assert(a@ =~= a@.subrange(0, b@.len() as int));
        } else if a@ == b@ {
            assert(a@.subrange(0, b@.len() as int) =~= b@);
        }
    }
    r
}

/// `s.strip_prefix(prefix).unwrap_or(s)`, as an owned string.
pub fn strip_prefix_or_self_str(s: &str, prefix: &str) -> (r: String)
    ensures
        r@ == strip_prefix_or_self(s@, prefix@),
{
    let sv = chars_of(s);
    let pv = chars_of(prefix);
    if seq_matches_at(&sv, &pv, 0) {
        string_from_range(&sv, pv.len(), sv.len())
    } else {
        s.to_owned()
    }
}

/// Returns whether `needle` occurs in `s`.
pub fn contains(s: &str, needle: &str) -> (b: bool)
    ensures
        b == contains_seq(s@, needle@),
{
    let sv = chars_of(s);
    let nv = chars_of(needle);
    if nv.len() > sv.len() {
        assert(!contains_seq(s@, needle@));
        return false;
    }
    let last = sv.len() - nv.len();
    let mut i: usize = 0;
    loop
        invariant
            sv@ == s@,
            nv@ == needle@,
            last == sv.len() - nv.len(),
            nv.len() <= sv.len(),
            i <= last,
            forall|j: int| 0 <= j < i ==> !occurs_at(s@, needle@, j),
        decreases last - i,
    {
        if seq_matches_at(&sv, &nv, i) {
            return true;
        }
        if i == last {
            assert forall|j: int| !occurs_at(s@, needle@, j) by {
                if 0 <= j && j <= last {
                }
            }
            return false;
        }
        i = i + 1;
    }
}

/// Splits `s` at every occurrence of `sep` (the pieces of `str::split`).
pub fn split_chars(s: &str, sep: char) -> (parts: Vec<String>)
    ensures
        parts@.len() == split_seq(s@, sep).len(),
        forall|k: int| 0 <= k < parts@.len() ==> #[trigger] parts@[k]@ == split_seq(s@, sep)[k],
        parts@.len() >= 1,
{
    let sv = chars_of(s);
    let mut parts: Vec<String> = Vec::new();
    let mut cur = String::new();
    let mut i: usize = 0;
    let ghost mut views: Seq<Seq<char>> = Seq::empty();
    proof {
        assert(s@.skip(0) =~= s@);
    }
    while i < sv.len()
        invariant
            sv@ == s@,
            i <= sv.len(),
            parts@.len() == views.len(),
            forall|k: int| 0 <= k < parts@.len() ==> #[trigger] parts@[k]@ == views[k],
            views + split_acc(cur@, s@.skip(i as int), sep) == split_seq(s@, sep),
        decreases sv.len() - i,
    {
        let c = sv[i];
        proof {
            assert(s@.skip(i as int)[0] == c);
            assert(s@.skip(i as int).drop_first() =~= s@.skip(i + 1));
        }
        if c == sep {
            proof {
                assert(views + split_acc(cur@, s@.skip(i as int), sep) =~= views.push(cur@)
                    + split_acc(Seq::empty(), s@.skip(i + 1), sep));
                views = views.push(cur@);
            }
            parts.push(cur);
            cur = String::new();
        } else {
            push_char(&mut cur, c);
        }
        i = i + 1;
    }
    proof {
        assert(s@.skip(i as int).len() == 0);
        assert(views + seq![cur@] == split_seq(s@, sep));
        views = views.push(cur@);
        lemma_split_acc_nonempty(Seq::empty(), s@, sep);
    }
    parts.push(cur);
    parts
}

/// The part of `s` before the first `sep` (`s.split(sep).next().unwrap()`).
pub fn before_first_str(s: &str, sep: char) -> (r: String)
    ensures
        r@ == before_first(s@, sep),
{
    let mut parts = split_chars(s, sep);
    parts.swap_remove(0)
}

/// The part of `s` after the last `sep` (`s.rsplit(sep).next().unwrap()`).
pub fn after_last_str(s: &str, sep: char) -> (r: String)
    ensures
        r@ == after_last(s@, sep),
{
    let mut parts = split_chars(s, sep);
    let r = parts.pop();
    match r {
        Some(r) => r,
        None => String::new(),
    }
}

/// The first `n` characters of `s` (`s.chars().take(n).collect()`).
pub fn take_chars_str(s: &str, n: usize) -> (r: String)
    ensures
        r@ == take_chars(s@, n as nat),
{
    let v = chars_of(s);
    if n <= v.len() {
        string_from_range(&v, 0, n)
    } else {
        s.to_owned()
    }
}

/// Whether `c` is Unicode whitespace (`char::is_whitespace`).
pub fn is_whitespace(c: char) -> (b: bool)
    ensures
        b == is_ws(c),
{
    let u = c as u32;
    (0x9 <= u && u <= 0xD) || u == 0x20 || u == 0x85 || u == 0xA0 || u == 0x1680 || (0x2000 <= u
        && u <= 0x200A) || u == 0x2028 || u == 0x2029 || u == 0x202F || u == 0x205F || u == 0x3000
}

/// `lead_ws` counted from position `i`.
proof fn lemma_lead_ws_at(s: Seq<char>, i: int)
    requires
        0 <= i <= s.len(),
        forall|j: int| 0 <= j < i ==> is_ws(#[trigger] s[j]),
    ensures
        lead_ws(s) == i + lead_ws(s.skip(i)),
    decreases i,
{
    if i > 0 {
        assert(is_ws(s[0]));
        assert forall|j: int| 0 <= j < i - 1 implies is_ws(#[trigger] s.drop_first()[j]) by {
            assert(s.drop_first()[j] == s[j + 1]);
        }
        lemma_lead_ws_at(s.drop_first(), i - 1);
        assert(s.drop_first().skip(i - 1) =~= s.skip(i));
    } else {
        assert(s.skip(0) =~= s);
    }
}

/// `trail_ws` counted from the end down to position `k`.
proof fn lemma_trail_ws_at(s: Seq<char>, k: int)
    requires
        0 <= k <= s.len(),
        forall|j: int| k <= j < s.len() ==> is_ws(#[trigger] s[j]),
    ensures
        trail_ws(s) == (s.len() - k) + trail_ws(s.take(k)),
    decreases s.len() - k,
{
    if k < s.len() {
        assert(is_ws(s.last()));
        assert forall|j: int| k <= j < s.drop_last().len() implies is_ws(
            #[trigger] s.drop_last()[j],
        ) by {
            assert(s.drop_last()[j] == s[j]);
        }
        lemma_trail_ws_at(s.drop_last(), k);
        assert(s.drop_last().take(k) =~= s.take(k));
    } else {
        assert(s.take(k) =~= s);
    }
}

/// `s` without leading and trailing whitespace (`str::trim`).
pub fn trim_str(s: &str) -> (r: String)
    ensures
        r@ == trim_seq(s@),
{
    let v = chars_of(s);
    let n = v.len();
    let mut lo: usize = 0;
    while lo < n && is_whitespace(v[lo])
        invariant
            v@ == s@,
            n == v.len(),
            lo <= n,
            forall|j: int| 0 <= j < lo ==> is_ws(#[trigger] s@[j]),
        decreases n - lo,
    {
        lo = lo + 1;
    }
    proof {
        lemma_lead_ws_at(s@, lo as int);
        if lo < n {
            assert(s@.skip(lo as int)[0] == s@[lo as int]);
        }
    }
    if lo == n {
        assert(s@.skip(lo as int).len() == 0);
        return String::new();
    }
    let mut hi: usize = n;
    while hi > lo && is_whitespace(v[hi - 1])
        invariant
            v@ == s@,
            n == v.len(),
            lo < n,
            !is_ws(s@[lo as int]),
            lo <= hi <= n,
            forall|j: int| hi <= j < n ==> is_ws(#[trigger] s@[j]),
        decreases hi,
    {
        hi = hi - 1;
    }
    proof {
        lemma_trail_ws_at(s@, hi as int);
        assert(hi > lo);
        assert(s@.take(hi as int).last() == s@[hi - 1]);
    }
    string_from_range(&v, lo, hi)
}

/// Replaces every non-overlapping occurrence of the non-empty `from` by `to`
/// (`str::replace`).
pub fn replace_str(s: &str, from: &str, to: &str) -> (r: String)
    requires
        from@.len() > 0,
    ensures
        r@ == replace_seq(s@, from@, to@),
{
    let v = chars_of(s);
    let fv = chars_of(from);
    let mut out = String::new();
    let mut i: usize = 0;
    proof {
        assert(s@.skip(0) =~= s@);
    }
    while i < v.len()
        invariant
            v@ == s@,
            fv@ == from@,
            from@.len() > 0,
            i <= v.len(),
            out@ + replace_seq(s@.skip(i as int), from@, to@) == replace_seq(s@, from@, to@),
        decreases v.len() - i,
    {
        let ghost rest = s@.skip(i as int);
        if seq_matches_at(&v, &fv, i) {
            proof {
                assert(rest.subrange(0, from@.len() as int) =~= s@.subrange(
                    i as int,
                    i + from@.len(),
                ));
                assert(is_prefix_of(from@, rest));
                assert(rest.subrange(from@.len() as int, rest.len() as int) =~= s@.skip(
                    i + fv.len(),
                ));
                assert(out@ + replace_seq(rest, from@, to@) =~= (out@ + to@) + replace_seq(
                    s@.skip(i + fv.len()),
                    from@,
                    to@,
                ));
            }
            out.append(to);
            i = i + fv.len();
        } else {
            proof {
                if is_prefix_of(from@, rest) {
                    assert(rest.subrange(0, from@.len() as int) =~= s@.subrange(
                        i as int,
                        i + from@.len(),
                    ));
                }
                assert(rest[0] == s@[i as int]);
                assert(rest.drop_first() =~= s@.skip(i + 1));
                assert(out@ + replace_seq(rest, from@, to@) =~= out@.push(s@[i as int])
                    + replace_seq(s@.skip(i + 1), from@, to@));
            }
            push_char(&mut out, v[i]);
            i = i + 1;
        }
    }
    proof {
        assert(s@.skip(i as int).len() == 0);
        assert(out@ + Seq::<char>::empty() =~= out@);
    }
    out
}

/// Number of UTF-8 bytes of `c` (`char::len_utf8`).
pub fn char_utf8_width(c: char) -> (w: usize)
    ensures
        w == utf8_width(c),
{
    let u = c as u32;
    if u < 0x80 {
        1
    } else if u < 0x800 {
        2
    } else if u < 0x10000 {
        3
    } else {
        4
    }
}

/// Whether the UTF-8 encoding of `s` is longer than `n` bytes (`s.len() > n`).
pub fn utf8_longer_than(s: &str, n: usize) -> (b: bool)
    ensures
        b == (utf8_len(s@) > n),
{
    let v = chars_of(s);
    let mut i: usize = 0;
    let mut acc: usize = 0;
    proof {
        assert(s@.skip(0) =~= s@);
    }
    while i < v.len()
        invariant
            v@ == s@,
            i <= v.len(),
            acc <= n,
            utf8_len(s@) == acc + utf8_len(s@.skip(i as int)),
        decreases v.len() - i,
    {
        let w = char_utf8_width(v[i]);
        proof {
            assert(s@.skip(i as int)[0] == s@[i as int]);
            assert(s@.skip(i as int).drop_first() =~= s@.skip(i + 1));
        }
        if w > n - acc {
            return true;
        }
        acc = acc + w;
        i = i + 1;
    }
    proof {
        assert(s@.skip(i as int).len() == 0);
    }
    false
}

/// Whether byte offset `n` falls on a character boundary of `s`, within its
/// length (`n <= s.len() && s.is_char_boundary(n)`).
pub fn is_byte_boundary_at(s: &str, n: usize) -> (b: bool)
    ensures
        b == is_byte_boundary(s@, n as nat),
{
    let v = chars_of(s);
    let mut i: usize = 0;
    let mut acc: usize = 0;
    proof {
        assert(s@.skip(0) =~= s@);
        assert(s@.take(0) =~= Seq::<char>::empty());
    }
    while i < v.len() && char_utf8_width(v[i]) <= n - acc
        invariant
            v@ == s@,
            i <= v.len(),
            acc <= n,
            acc == utf8_len(s@.take(i as int)),
            take_bytes(s@, n as nat) == s@.take(i as int) + take_bytes(
                s@.skip(i as int),
                (n - acc) as nat,
            ),
        decreases v.len() - i,
    {
        let w = char_utf8_width(v[i]);
        proof {
            lemma_take_bytes_step(s@, i as int, (n - acc) as nat);
            assert(s@.take(i as int) + (seq![s@[i as int]] + take_bytes(
                s@.skip(i + 1),
                (n - acc - w) as nat,
            )) =~= s@.take(i + 1) + take_bytes(s@.skip(i + 1), (n - acc - w) as nat));
            assert(s@.take(i + 1) =~= s@.take(i as int) + seq![s@[i as int]]);
            lemma_utf8_len_concat(s@.take(i as int), seq![s@[i as int]]);
            assert(seq![s@[i as int]].drop_first() =~= Seq::<char>::empty());
            assert(utf8_len(Seq::<char>::empty()) == 0);
            assert(seq![s@[i as int]][0] == s@[i as int]);
            assert(utf8_len(seq![s@[i as int]]) == utf8_width(s@[i as int]));
        }
        acc = acc + w;
        i = i + 1;
    }
    proof {
        if i == v.len() {
            assert(s@.skip(i as int).len() == 0);
        } else {
            lemma_take_bytes_step(s@, i as int, (n - acc) as nat);
        }
        assert(take_bytes(s@, n as nat) =~= s@.take(i as int));
        assert(s@ =~= s@.take(i as int) + s@.skip(i as int));
        lemma_utf8_len_concat(s@.take(i as int), s@.skip(i as int));
    }
    acc == n
}

/// The byte slice `&s[..n]` as an owned string; `n` must fall on a character
/// boundary, as the slice would panic otherwise.
pub fn take_bytes_str(s: &str, n: usize) -> (r: String)
    requires
        is_byte_boundary(s@, n as nat),
    ensures
        r@ == take_bytes(s@, n as nat),
        utf8_len(r@) == n,
{
    let v = chars_of(s);
    let mut i: usize = 0;
    let mut acc: usize = 0;
    proof {
        assert(s@.skip(0) =~= s@);
        assert(s@.take(0) =~= Seq::<char>::empty());
    }
    while i < v.len() && char_utf8_width(v[i]) <= n - acc
        invariant
            v@ == s@,
            i <= v.len(),
            acc <= n,
            take_bytes(s@, n as nat) == s@.take(i as int) + take_bytes(
                s@.skip(i as int),
                (n - acc) as nat,
            ),
        decreases v.len() - i,
    {
        let w = char_utf8_width(v[i]);
        proof {
            lemma_take_bytes_step(s@, i as int, (n - acc) as nat);
        }
        proof {
            assert(s@.take(i as int) + (seq![s@[i as int]] + take_bytes(
                s@.skip(i + 1),
                (n - acc - w) as nat,
            )) =~= s@.take(i + 1) + take_bytes(s@.skip(i + 1), (n - acc - w) as nat));
        }
        acc = acc + w;
        i = i + 1;
    }
    proof {
        if i == v.len() {
            assert(s@.skip(i as int).len() == 0);
        } else {
            lemma_take_bytes_step(s@, i as int, (n - acc) as nat);
        }
        assert(take_bytes(s@, n as nat) =~= s@.take(i as int));
    }
    string_from_range(&v, 0, i)
}

} // verus!
