//! Texts shown for notes: relative times, note names, the session note's
//! file name.
use vstd::prelude::*;
use crate::bindings::{
    day_before, day_in_range, local_now_stamp, local_today, now_unix_secs, parse_inbox_stamp,
    parsed_inbox_stamp, previous_day, push_char, stamp_shape, Day, Stamp,
};
use crate::notes::md_suffix;
use crate::text::{
    chars_of, has_prefix, lemma_utf8_len_take, starts_with, string_of, sub_vec, utf8_len,
    utf8_width,
};

verus! {

// ---------------------------------------------------------------- numbers

/// The decimal digit `d` (0-9) as a character.
pub open spec fn digit(d: int) -> char {
    (48 + d) as char
}

/// The decimal representation of `n`, without leading zeros.
pub open spec fn decimal(n: nat) -> Seq<char>
    decreases n,
{
    if n < 10 {
        seq![digit(n as int)]
    } else {
        decimal(n / 10).push(digit((n % 10) as int))
    }
}

/// `n` (below 100) as two digits, zero-padded.
pub open spec fn two_digits(n: nat) -> Seq<char> {
    seq![digit((n / 10) as int), digit((n % 10) as int)]
}

fn digit_char(d: u8) -> (c: char)
    requires
        d < 10,
    ensures
        c == digit(d as int),
{
    (48u8 + d) as char
}

/// Appends the decimal representation of `n`.
pub fn push_decimal(out: &mut String, n: u64)
    ensures
        final(out)@ == old(out)@ + decimal(n as nat),
    decreases n,
{
    if n >= 10 {
        push_decimal(out, n / 10);
    }
    push_char(out, digit_char((n % 10) as u8));
}

/// Appends `n` (below 100) as two digits.
pub fn push_two_digits(out: &mut String, n: u32)
    requires
        n < 100,
    ensures
        final(out)@ == old(out)@ + two_digits(n as nat),
{
    push_char(out, digit_char((n / 10) as u8));
    push_char(out, digit_char((n % 10) as u8));
}

// ---------------------------------------------------------------- relative time

/// How long ago `ts` was at time `now` (both in seconds since the epoch):
/// under a minute "ahora", then minutes, hours, "ayer" for the second day,
/// then days.
pub open spec fn relative_label(ts: u64, now: u64) -> Seq<char> {
    let diff: nat = if now >= ts {
        (now - ts) as nat
    } else {
        0
    };
    if diff < 60 {
        "ahora"@
    } else if diff < 3600 {
        "hace "@ + decimal(diff / 60) + "m"@
    } else if diff < 86400 {
        "hace "@ + decimal(diff / 3600) + "h"@
    } else if diff < 172800 {
        "ayer"@
    } else {
        "hace "@ + decimal(diff / 86400) + "d"@
    }
}

/// How long ago `ts` was, at time `now`.
pub fn relative_time_at(ts: u64, now: u64) -> (r: String)
    ensures
        r@ == relative_label(ts, now),
{
    let diff = now.saturating_sub(ts);
    if diff < 60 {
        return String::from_str("ahora");
    }
    if diff < 3600 {
        let mut s = String::from_str("hace ");
        push_decimal(&mut s, diff / 60);
        s.append("m");
        return s;
    }
    if diff < 86400 {
        let mut s = String::from_str("hace ");
        push_decimal(&mut s, diff / 3600);
        s.append("h");
        return s;
    }
    if diff < 172800 {
        return String::from_str("ayer");
    }
    let mut s = String::from_str("hace ");
    push_decimal(&mut s, diff / 86400);
    s.append("d");
    s
}

/// How long ago `ts` (seconds since the epoch) was, by the system clock.
pub fn relative_time(ts: u64) -> (r: String)
    ensures
        exists|now: u64| r@ == relative_label(ts, now),
{
    let now = now_unix_secs();
    relative_time_at(ts, now)
}

// ---------------------------------------------------------------- note names

/// `"inbox-"`
pub open spec fn inbox_prefix() -> Seq<char> {
    seq!['i', 'n', 'b', 'o', 'x', '-']
}

/// `str::trim_end_matches(".md")`: every trailing `.md` removed.
pub open spec fn trim_md_suffixes(s: Seq<char>) -> Seq<char>
    decreases s.len(),
{
    if s.len() >= 3 && s.skip(s.len() - 3) == md_suffix() {
        trim_md_suffixes(s.take(s.len() - 3))
    } else {
        s
    }
}

/// The text that a session note's name carries after `inbox-`, with the
/// `.md` endings removed: what is parsed as a date and time.
pub open spec fn stamp_text(name: Seq<char>) -> Seq<char> {
    trim_md_suffixes(name.skip(6))
}

/// `s[..b]` where `b` is a byte offset that falls between characters.
pub open spec fn take_bytes(s: Seq<char>, b: nat) -> Seq<char> {
    s.take(choose|k: int| 0 <= k <= s.len() && utf8_len(s.take(k)) == b)
}

/// Byte offset `b` falls between two characters of `s`.
pub open spec fn byte_boundary(s: Seq<char>, b: nat) -> bool {
    exists|k: int| 0 <= k <= s.len() && utf8_len(#[trigger] s.take(k)) == b
}

/// The day shown for a session note's date: "hoy", "ayer", or `dd/mm`.
pub open spec fn day_label(d: Day, today: Day, yesterday: Option<Day>) -> Seq<char> {
    if d == today {
        "hoy"@
    } else if yesterday == Some(d) {
        "ayer"@
    } else {
        two_digits(d.day as nat) + seq!['/'] + two_digits(d.month as nat)
    }
}

/// How the list shows a note's name: a session note (`inbox-` and a date
/// and time that parse) as an inbox mark, its day and its time `HHhMM`;
/// another name longer than 20 bytes cut to its first 19 bytes and `…`;
/// any other name as it is.
pub open spec fn note_label(
    name: Seq<char>,
    parsed: Option<Stamp>,
    today: Day,
    yesterday: Option<Day>,
) -> Seq<char> {
    if starts_with(name, inbox_prefix()) && parsed is Some {
        let st = parsed->0;
        seq!['\u{1F4E5}', ' '] + day_label(
            Day { year: st.year, month: st.month, day: st.day },
            today,
            yesterday,
        ) + seq![' '] + two_digits(st.hour as nat) + seq!['h'] + two_digits(st.minute as nat)
    } else if utf8_len(name) > 20 {
        take_bytes(name, 19).push('\u{2026}')
    } else {
        name
    }
}

/// `s` with every trailing `.md` removed.
pub fn trim_md_endings(s: &Vec<char>) -> (r: Vec<char>)
    ensures
        r@ == trim_md_suffixes(s@),
{
    let mut n = s.len();
    assert(s@.take(n as int) =~= s@);
    while n >= 3 && s[n - 3] == '.' && s[n - 2] == 'm' && s[n - 1] == 'd'
        invariant
            n <= s@.len(),
            trim_md_suffixes(s@.take(n as int)) == trim_md_suffixes(s@),
        decreases n,
    {
        assert(s@.take(n as int).skip(n - 3) =~= md_suffix());
        assert(s@.take(n as int).take(n - 3) =~= s@.take(n - 3));
        n = n - 3;
    }
    proof {
        let t = s@.take(n as int);
        if n >= 3 && t.skip(n - 3) == md_suffix() {
            assert(t.skip(n - 3)[0] == '.');
            assert(t.skip(n - 3)[1] == 'm');
            assert(t.skip(n - 3)[2] == 'd');
        }
        assert(s@.take(s@.len() as int) =~= s@);
    }
    sub_vec(s, 0, n)
}

proof fn lemma_take_bytes_unique(s: Seq<char>, k: int, b: nat)
    requires
        0 <= k <= s.len(),
        utf8_len(s.take(k)) == b,
    ensures
        take_bytes(s, b) == s.take(k),
{
    let j = choose|j: int| 0 <= j <= s.len() && utf8_len(s.take(j)) == b;
    if j != k {
        let (lo, hi) = if j < k { (j, k) } else { (k, j) };
        lemma_utf8_len_strict(s, lo, hi);
    }
}

proof fn lemma_utf8_len_strict(s: Seq<char>, lo: int, hi: int)
    requires
        0 <= lo < hi <= s.len(),
    ensures
        utf8_len(s.take(lo)) < utf8_len(s.take(hi)),
    decreases hi - lo,
{
    lemma_utf8_len_take(s, hi - 1);
    vstd::utf8::char_is_scalar(s[hi - 1]);
    assert(s.take(hi - 1 + 1) == s.take(hi));
    if lo < hi - 1 {
        lemma_utf8_len_strict(s, lo, hi - 1);
    }
}

/// The number of characters of `v` that make up its first `b` bytes.
fn chars_in_bytes(v: &Vec<char>, b: usize) -> (k: usize)
    requires
        byte_boundary(v@, b as nat),
    ensures
        k <= v@.len(),
        utf8_len(v@.take(k as int)) == b,
{
    let mut k: usize = 0;
    let mut n: usize = 0;
    let vlen = v.len();
    assert(v@.take(0) =~= Seq::<char>::empty());
    let ghost target = choose|j: int| 0 <= j <= v@.len() && utf8_len(v@.take(j)) == b;
    while n < b
        invariant
            k <= target <= v@.len() == vlen,
            utf8_len(v@.take(target)) == b,
            n == utf8_len(v@.take(k as int)),
            n <= b,
        decreases b - n,
    {
        proof {
            if k == target {
                assert(false);
            }
            lemma_utf8_len_take(v@, k as int);
            if k + 1 < target {
                lemma_utf8_len_strict(v@, k + 1, target);
            }
        }
        n = n + utf8_width(v[k]);
        k = k + 1;
    }
    proof {
        if k < target {
            lemma_utf8_len_strict(v@, k as int, target);
        }
    }
    k
}

/// `note_label` given what parsing the name's date gave and the dates of
/// today and yesterday.
pub fn format_note_name_with(
    name: &str,
    parsed: Option<Stamp>,
    today: &Day,
    yesterday: Option<Day>,
) -> (r: String)
    requires
        parsed matches Some(s) ==> s.month < 100 && s.day < 100 && s.hour < 100 && s.minute < 100,
        today.month < 100 && today.day < 100,
        starts_with(name@, inbox_prefix()) && parsed is Some || utf8_len(name@) <= 20
            || byte_boundary(name@, 19),
    ensures
        r@ == note_label(name@, parsed, *today, yesterday),
{
    let v = chars_of(name);
    let inbox: Vec<char> = vec!['i', 'n', 'b', 'o', 'x', '-'];
    if has_prefix(&v, &inbox) {
        if let Some(st) = parsed {
            let mut s = String::new();
            push_char(&mut s, '\u{1F4E5}');
            push_char(&mut s, ' ');
            let d = Day { year: st.year, month: st.month, day: st.day };
            if d == *today {
                s.append("hoy");
            } else if yesterday == Some(d) {
                s.append("ayer");
            } else {
                push_two_digits(&mut s, st.day);
                push_char(&mut s, '/');
                push_two_digits(&mut s, st.month);
            }
            push_char(&mut s, ' ');
            push_two_digits(&mut s, st.hour);
            push_char(&mut s, 'h');
            push_two_digits(&mut s, st.minute);
            return s;
        }
    }
    let byte_len = name.as_bytes().len();
    if byte_len > 20 {
        let k = chars_in_bytes(&v, 19);
        proof {
            lemma_take_bytes_unique(v@, k as int, 19);
        }
        let mut s = string_of(&sub_vec(&v, 0, k));
        push_char(&mut s, '\u{2026}');
        return s;
    }
    String::from_str(name)
}

/// The date and time that a session note's name gives, as parsed.
pub open spec fn name_stamp(name: Seq<char>) -> Option<Stamp> {
    if starts_with(name, inbox_prefix()) {
        parsed_inbox_stamp(stamp_text(name))
    } else {
        None
    }
}

/// How the list shows a note's name (see `note_label`), with today's date
/// from the local clock.
pub fn format_note_name(name: &str) -> (r: String)
    requires
        utf8_len(name@) <= 20 || byte_boundary(name@, 19),
    ensures
        exists|today: Day|
            day_in_range(today) && r@ == #[trigger] note_label(
                name@,
                name_stamp(name@),
                today,
                previous_day(today.year, today.month, today.day),
            ),
{
    let v = chars_of(name);
    let inbox: Vec<char> = vec!['i', 'n', 'b', 'o', 'x', '-'];
    let parsed = if has_prefix(&v, &inbox) {
        let rest = trim_md_endings(&sub_vec(&v, 6, v.len()));
        assert(v@.subrange(6, v@.len() as int) =~= v@.skip(6));
        let text = string_of(&rest);
        parse_inbox_stamp(text.as_str())
    } else {
        None
    };
    let today = local_today();
    let yesterday = day_before(&today);
    format_note_name_with(name, parsed, &today, yesterday)
}

// ---------------------------------------------------------------- session note

/// The file name of a session note for the local date and time `stamp`.
pub open spec fn session_name(stamp: Seq<char>) -> Seq<char> {
    "inbox-"@ + stamp + ".md"@
}

/// The file name of a session note begun at the local date and time `stamp`.
pub fn session_file_name_for(stamp: &str) -> (r: String)
    ensures
        r@ == session_name(stamp@),
{
    let mut s = String::from_str("inbox-");
    s.append(stamp);
    s.append(".md");
    s
}

/// The file name of the session note begun now: `inbox-`, the local date
/// and time as `YYYY-MM-DD-HHhMM`, and `.md`.
pub fn session_file_name() -> (r: String)
    ensures
        exists|stamp: Seq<char>| stamp_shape(stamp) && r@ == session_name(stamp),
{
    let stamp = local_now_stamp();
    let s = session_file_name_for(stamp.as_str());
    assert(s@ == session_name(stamp@));
    s
}

} // verus!
