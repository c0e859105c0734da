//! Filename parser for recording files.
//!
//! A recording's name matches the grammar when it begins with the literal
//! timestamp token `YYYYMMDD_HHMMSS` (eight digits, an underscore, six
//! digits), and, after arbitrary free text, carries the destination delimiter
//! `__TO_` followed by the talkgroup field: one optional letter and at least
//! one digit. A bracketed annotation right after the talkgroup digits
//! (optionally preceded by a single underscore) is recognized but discarded
//! — it carries no output value. The radio id comes from the first source
//! delimiter `_FROM_` followed by digits after the talkgroup field and past
//! that annotation, never from inside it; when no such delimiter follows,
//! the radio id falls back to a fixed default. When several destination
//! delimiters are present, the rightmost one with a well-formed talkgroup
//! field counts.

use vstd::prelude::*;
use vstd::string::StrSliceExecFns;
use vstd::string::StringExecFns;

verus! {

/// ASCII decimal digit.
pub open spec fn is_digit(c: char) -> bool {
    48 <= c as u32 && c as u32 <= 57
}

/// ASCII letter.
pub open spec fn is_alpha(c: char) -> bool {
    (97 <= c as u32 && c as u32 <= 122) || (65 <= c as u32 && c as u32 <= 90)
}

/// Every position of `s` in `from .. to` holds a digit.
pub open spec fn digits_in(s: Seq<char>, from: int, to: int) -> bool {
    forall|i: int| from <= i < to ==> is_digit(#[trigger] s[i])
}

/// The filename begins with the timestamp token: eight digits, `_`, six digits.
pub open spec fn has_timestamp_prefix(s: Seq<char>) -> bool {
    &&& s.len() >= 15
    &&& digits_in(s, 0, 8)
    &&& s[8] == '_'
    &&& digits_in(s, 9, 15)
}

/// The destination delimiter `__TO_` occupies positions `i .. i + 5`.
pub open spec fn to_marker_at(s: Seq<char>, i: int) -> bool {
    s[i] == '_' && s[i + 1] == '_' && s[i + 2] == 'T' && s[i + 3] == 'O' && s[i + 4] == '_'
}

/// A well-formed talkgroup field starts at `p`: an optional single letter,
/// then at least one digit.
pub open spec fn talkgroup_at(s: Seq<char>, p: int) -> bool {
    p < s.len() && (is_digit(s[p]) || (is_alpha(s[p]) && p + 1 < s.len() && is_digit(s[p + 1])))
}

/// A destination site: the delimiter followed by a well-formed talkgroup field.
pub open spec fn to_site_at(s: Seq<char>, i: int) -> bool {
    0 <= i && i + 5 < s.len() && to_marker_at(s, i) && talkgroup_at(s, i + 5)
}

/// Index of the rightmost destination site at or below `i`, or -1 if none.
pub open spec fn last_to_site_from(s: Seq<char>, i: int) -> int
    decreases i + 1,
{
    if i < 0 {
        -1
    } else if to_site_at(s, i) {
        i
    } else {
        last_to_site_from(s, i - 1)
    }
}

/// Index of the rightmost destination site of the whole name, or -1 if none.
pub open spec fn last_to_site(s: Seq<char>) -> int {
    last_to_site_from(s, s.len() - 1)
}

/// First index of the talkgroup digits of the site at `i`: the optional
/// letter prefix is skipped, so it is stripped from the output.
pub open spec fn tg_digits_start(s: Seq<char>, i: int) -> int {
    if is_alpha(s[i + 5]) {
        i + 6
    } else {
        i + 5
    }
}

/// End (exclusive) of the maximal digit run starting at `d`.
pub open spec fn digit_run_end(s: Seq<char>, d: int) -> int
    decreases s.len() - d,
{
    if d < s.len() && is_digit(s[d]) {
        digit_run_end(s, d + 1)
    } else {
        d
    }
}

/// The source delimiter `_FROM_` at `j`, followed by at least one digit.
pub open spec fn from_site_at(s: Seq<char>, j: int) -> bool {
    &&& 0 <= j && j + 6 < s.len()
    &&& s[j] == '_' && s[j + 1] == 'F' && s[j + 2] == 'R' && s[j + 3] == 'O' && s[j + 4] == 'M'
        && s[j + 5] == '_'
    &&& is_digit(s[j + 6])
}

/// First source site at or after `j`, or -1 if none.
pub open spec fn first_from_site_from(s: Seq<char>, j: int) -> int
    decreases s.len() - j,
{
    if j + 6 >= s.len() {
        -1
    } else if from_site_at(s, j) {
        j
    } else {
        first_from_site_from(s, j + 1)
    }
}

/// First `]` at or after position `b`, or -1 if none.
pub open spec fn first_rbracket_from(s: Seq<char>, b: int) -> int
    decreases s.len() - b,
{
    if b >= s.len() {
        -1
    } else if s[b] == ']' {
        b
    } else {
        first_rbracket_from(s, b + 1)
    }
}

/// End of the optional bracketed annotation that follows the talkgroup
/// digits ending at `e`: the annotation is `[`, any characters, `]`,
/// optionally preceded by a single underscore. It carries no output value,
/// so the source-delimiter search resumes only past its closing bracket;
/// without a (closed) annotation the search resumes at `e` itself.
pub open spec fn annotation_end(s: Seq<char>, e: int) -> int {
    let b = if e < s.len() && s[e] == '[' {
        e
    } else if e + 1 < s.len() && s[e] == '_' && s[e + 1] == '[' {
        e + 1
    } else {
        -1
    };
    if b >= 0 {
        let c = first_rbracket_from(s, b + 1);
        if c >= 0 {
            c + 1
        } else {
            e
        }
    } else {
        e
    }
}

/// A filename matches the grammar iff it starts with the timestamp token and
/// holds a destination site.
pub open spec fn parse_ok(s: Seq<char>) -> bool {
    has_timestamp_prefix(s) && last_to_site(s) >= 0
}

/// The literal timestamp token of a matching name.
pub open spec fn ts_of(s: Seq<char>) -> Seq<char> {
    s.subrange(0, 15)
}

/// Start of the talkgroup digits of a matching name.
pub open spec fn tg_start(s: Seq<char>) -> int {
    tg_digits_start(s, last_to_site(s))
}

/// The talkgroup digits of a matching name, letter prefix stripped.
pub open spec fn tg_of(s: Seq<char>) -> Seq<char> {
    s.subrange(tg_start(s), digit_run_end(s, tg_start(s)))
}

/// The radio id yielded when the name carries no source delimiter.
pub open spec fn default_radio() -> Seq<char> {
    "123456"@
}

/// The radio id of a matching name: the digits after the first source
/// delimiter past the talkgroup digits and past its optional bracketed
/// annotation — never one starting inside the annotation — or the default.
pub open spec fn radio_of(s: Seq<char>) -> Seq<char> {
    let e = digit_run_end(s, tg_start(s));
    let j = first_from_site_from(s, annotation_end(s, e));
    if j >= 0 {
        s.subrange(j + 6, digit_run_end(s, j + 6))
    } else {
        default_radio()
    }
}

/// Exec test for [`is_digit`].
fn digit(c: char) -> (r: bool)
    ensures
        r == is_digit(c),
{
    let u = c as u32;
    48 <= u && u <= 57
}

/// Exec test for [`is_alpha`].
fn alpha(c: char) -> (r: bool)
    ensures
        r == is_alpha(c),
{
    let u = c as u32;
    (97 <= u && u <= 122) || (65 <= u && u <= 90)
}

/// Exec test for [`has_timestamp_prefix`].
fn check_timestamp(s: &str, n: usize) -> (r: bool)
    requires
        n == s@.len(),
    ensures
        r == has_timestamp_prefix(s@),
{
    if n < 15 {
        return false;
    }
    let mut i: usize = 0;
    while i < 8
        invariant
            n == s@.len(),
            n >= 15,
            i <= 8,
            forall|j: int| 0 <= j < i ==> is_digit(#[trigger] s@[j]),
        decreases 8 - i,
    {
        if !digit(s.get_char(i)) {
            return false;
        }
        i = i + 1;
    }
    if s.get_char(8) != '_' {
        return false;
    }
    let mut k: usize = 9;
    while k < 15
        invariant
            n == s@.len(),
            n >= 15,
            9 <= k <= 15,
            forall|j: int| 9 <= j < k ==> is_digit(#[trigger] s@[j]),
        decreases 15 - k,
    {
        if !digit(s.get_char(k)) {
            return false;
        }
        k = k + 1;
    }
    true
}

/// Exec test for [`to_site_at`].
fn is_to_site(s: &str, i: usize, n: usize) -> (r: bool)
    requires
        n == s@.len(),
        i < n,
    ensures
        r == to_site_at(s@, i as int),
{
    if n - i < 6 {
        return false;
    }
    if s.get_char(i) != '_' || s.get_char(i + 1) != '_' || s.get_char(i + 2) != 'T' || s.get_char(
        i + 3,
    ) != 'O' || s.get_char(i + 4) != '_' {
        return false;
    }
    let p = i + 5;
    let c = s.get_char(p);
    if digit(c) {
        return true;
    }
    if alpha(c) {
        if n - p < 2 {
            return false;
        }
        return digit(s.get_char(p + 1));
    }
    false
}

/// Finds the rightmost destination site.
fn find_last_to_site(s: &str, n: usize) -> (r: Option<usize>)
    requires
        n == s@.len(),
    ensures
        match r {
            Some(i) => i < n && to_site_at(s@, i as int) && last_to_site(s@) == i,
            None => last_to_site(s@) == -1,
        },
{
    let mut i: usize = n;
    while i > 0
        invariant
            n == s@.len(),
            i <= n,
            last_to_site(s@) == last_to_site_from(s@, i as int - 1),
        decreases i,
    {
        i = i - 1;
        if is_to_site(s, i, n) {
            proof {
                assert(last_to_site_from(s@, i as int) == i);
            }
            return Some(i);
        }
        proof {
            assert(last_to_site_from(s@, i as int) == last_to_site_from(s@, i as int - 1));
        }
    }
    proof {
        assert(last_to_site_from(s@, -1) == -1);
    }
    None
}

/// Scans the maximal digit run starting at `d`.
fn scan_digits(s: &str, d: usize, n: usize) -> (e: usize)
    requires
        n == s@.len(),
        d <= n,
    ensures
        d <= e <= n,
        e == digit_run_end(s@, d as int),
{
    let mut k: usize = d;
    while k < n
        invariant
            n == s@.len(),
            d <= k <= n,
            digit_run_end(s@, d as int) == digit_run_end(s@, k as int),
        decreases n - k,
    {
        if !digit(s.get_char(k)) {
            proof {
                assert(digit_run_end(s@, k as int) == k as int);
            }
            return k;
        }
        k = k + 1;
    }
    proof {
        assert(digit_run_end(s@, k as int) == k as int);
    }
    k
}

/// Finds the first `]` at or after `b`.
fn find_rbracket(s: &str, b: usize, n: usize) -> (r: Option<usize>)
    requires
        n == s@.len(),
        b <= n,
    ensures
        match r {
            Some(c) => b <= c && c < n && s@[c as int] == ']' && first_rbracket_from(
                s@,
                b as int,
            ) == c,
            None => first_rbracket_from(s@, b as int) == -1,
        },
{
    let mut j: usize = b;
    while j < n
        invariant
            n == s@.len(),
            b <= j <= n,
            first_rbracket_from(s@, b as int) == first_rbracket_from(s@, j as int),
        decreases n - j,
    {
        if s.get_char(j) == ']' {
            proof {
                assert(first_rbracket_from(s@, j as int) == j);
            }
            return Some(j);
        }
        proof {
            assert(first_rbracket_from(s@, j as int) == first_rbracket_from(s@, j as int + 1));
        }
        j = j + 1;
    }
    proof {
        assert(first_rbracket_from(s@, j as int) == -1);
    }
    None
}

/// Skips the optional bracketed annotation after the talkgroup digits ending
/// at `e`, yielding where the source-delimiter search may resume.
fn skip_annotation(s: &str, e: usize, n: usize) -> (a: usize)
    requires
        n == s@.len(),
        e <= n,
    ensures
        e <= a <= n,
        a == annotation_end(s@, e as int),
{
    if e >= n {
        return e;
    }
    let c0 = s.get_char(e);
    let b: usize;
    if c0 == '[' {
        b = e;
    } else if c0 == '_' && n - e >= 2 && s.get_char(e + 1) == '[' {
        b = e + 1;
    } else {
        return e;
    }
    match find_rbracket(s, b + 1, n) {
        Some(c) => c + 1,
        None => e,
    }
}

/// Exec test for [`from_site_at`].
fn is_from_site(s: &str, j: usize, n: usize) -> (r: bool)
    requires
        n == s@.len(),
        j < n,
    ensures
        r == from_site_at(s@, j as int),
{
    if n - j < 7 {
        return false;
    }
    if s.get_char(j) != '_' || s.get_char(j + 1) != 'F' || s.get_char(j + 2) != 'R' || s.get_char(
        j + 3,
    ) != 'O' || s.get_char(j + 4) != 'M' || s.get_char(j + 5) != '_' {
        return false;
    }
    digit(s.get_char(j + 6))
}

/// Finds the first source site at or after `start`.
fn find_first_from_site(s: &str, start: usize, n: usize) -> (r: Option<usize>)
    requires
        n == s@.len(),
        start <= n,
    ensures
        match r {
            Some(j) => start <= j && from_site_at(s@, j as int) && first_from_site_from(
                s@,
                start as int,
            ) == j,
            None => first_from_site_from(s@, start as int) == -1,
        },
{
    let mut j: usize = start;
    while j < n
        invariant
            n == s@.len(),
            start <= j <= n,
            first_from_site_from(s@, start as int) == first_from_site_from(s@, j as int),
        decreases n - j,
    {
        if is_from_site(s, j, n) {
            proof {
                assert(first_from_site_from(s@, j as int) == j);
            }
            return Some(j);
        }
        proof {
            if j + 6 >= n {
                assert(first_from_site_from(s@, j as int) == -1);
                assert(first_from_site_from(s@, j as int + 1) == -1);
            } else {
                assert(first_from_site_from(s@, j as int) == first_from_site_from(
                    s@,
                    j as int + 1,
                ));
            }
        }
        j = j + 1;
    }
    proof {
        assert(first_from_site_from(s@, j as int) == -1);
    }
    None
}

/// Extracts `(timestamp, talkgroup id, radio id)` from a recording's
/// filename, or `None` when the name does not match the grammar — the normal
/// outcome for unrelated files, not an error.
pub fn parse_filename(filename: &str) -> (r: Option<(String, String, String)>)
    ensures
        r is Some <==> parse_ok(filename@),
        r matches Some(t) ==> {
            &&& t.0@ == ts_of(filename@)
            &&& t.1@ == tg_of(filename@)
            &&& t.2@ == radio_of(filename@)
        },
{
    let n = filename.unicode_len();
    if !check_timestamp(filename, n) {
        return None;
    }
    let site = match find_last_to_site(filename, n) {
        None => {
            return None;
        },
        Some(i) => i,
    };
    let p = site + 5;
    let d = if alpha(filename.get_char(p)) {
        p + 1
    } else {
        p
    };
    proof {
        assert(d as int == tg_digits_start(filename@, site as int));
    }
    let e = scan_digits(filename, d, n);
    let a = skip_annotation(filename, e, n);
    let ts = String::from_str(filename.substring_char(0, 15));
    let tg = String::from_str(filename.substring_char(d, e));
    let radio = match find_first_from_site(filename, a, n) {
        Some(j) => {
            let je = scan_digits(filename, j + 6, n);
            String::from_str(filename.substring_char(j + 6, je))
        },
        None => String::from_str("123456"),
    };
    Some((ts, tg, radio))
}

/// The maximal digit run is within bounds and holds digits only.
proof fn lemma_digit_run(s: Seq<char>, d: int)
    requires
        0 <= d <= s.len(),
    ensures
        d <= digit_run_end(s, d) <= s.len(),
        forall|k: int| d <= k < digit_run_end(s, d) ==> is_digit(#[trigger] s[k]),
    decreases s.len() - d,
{
    if d < s.len() && is_digit(s[d]) {
        lemma_digit_run(s, d + 1);
    }
}

/// A digit run starting on a digit is non-empty.
proof fn lemma_digit_run_step(s: Seq<char>, d: int)
    requires
        0 <= d < s.len(),
        is_digit(s[d]),
    ensures
        digit_run_end(s, d) >= d + 1,
{
    lemma_digit_run(s, d + 1);
    assert(digit_run_end(s, d) == digit_run_end(s, d + 1));
}

/// A non-negative result of the site search is a genuine site within bounds.
proof fn lemma_last_to_site_found(s: Seq<char>, i: int)
    ensures
        last_to_site_from(s, i) >= 0 ==> to_site_at(s, last_to_site_from(s, i)),
        last_to_site_from(s, i) >= -1,
    decreases i + 1,
{
    if i >= 0 && !to_site_at(s, i) {
        lemma_last_to_site_found(s, i - 1);
    }
}

/// Round trip of a matching filename: the timestamp is returned as the
/// literal fifteen-character token; the talkgroup id is a non-empty run of
/// digits (so a letter prefix on the field never reaches the output); and the
/// radio id is either a non-empty run of digits introduced by the source
/// delimiter or, exactly when no such delimiter follows the talkgroup, the
/// fixed default.
pub proof fn lemma_parse_round_trip(s: Seq<char>)
    requires
        parse_ok(s),
    ensures
        ts_of(s) == s.subrange(0, 15),
        tg_of(s).len() >= 1,
        forall|k: int| 0 <= k < tg_of(s).len() ==> is_digit(#[trigger] tg_of(s)[k]),
        first_from_site_from(s, annotation_end(s, digit_run_end(s, tg_start(s)))) < 0 ==> radio_of(
            s,
        ) == default_radio(),
        first_from_site_from(s, annotation_end(s, digit_run_end(s, tg_start(s)))) >= 0 ==> radio_of(
            s,
        ).len() >= 1 && (forall|k: int|
            0 <= k < radio_of(s).len() ==> is_digit(#[trigger] radio_of(s)[k])),
{
    let i = last_to_site(s);
    lemma_last_to_site_found(s, s.len() - 1);
    assert(to_site_at(s, i));
    let d = tg_start(s);
    assert(is_digit(s[d]));
    lemma_digit_run(s, d);
    lemma_digit_run_step(s, d);
    let e = digit_run_end(s, d);
    let j = first_from_site_from(s, annotation_end(s, e));
    if j >= 0 {
        lemma_first_from_site_found(s, annotation_end(s, e));
        assert(from_site_at(s, j));
        lemma_digit_run(s, j + 6);
        lemma_digit_run_step(s, j + 6);
    }
}

/// A non-negative result of the source-site search is a genuine site.
proof fn lemma_first_from_site_found(s: Seq<char>, j: int)
    ensures
        first_from_site_from(s, j) >= 0 ==> from_site_at(s, first_from_site_from(s, j))
            && first_from_site_from(s, j) >= j,
    decreases s.len() - j,
{
    if j + 6 < s.len() && !from_site_at(s, j) {
        lemma_first_from_site_found(s, j + 1);
    }
}

/// A name with no destination site anywhere never matches.
proof fn lemma_no_site(s: Seq<char>, i: int)
    requires
        forall|j: int| !to_site_at(s, j),
    ensures
        last_to_site_from(s, i) == -1,
    decreases i + 1,
{
    if i >= 0 {
        lemma_no_site(s, i - 1);
    }
}

/// Rejection is total: a filename lacking the leading timestamp token, or
/// lacking a destination delimiter with a well-formed talkgroup field, does
/// not match at all — the parser never yields a partial result for it.
pub proof fn lemma_parse_rejects(s: Seq<char>)
    requires
        !has_timestamp_prefix(s) || (forall|j: int| !to_site_at(s, j)),
    ensures
        !parse_ok(s),
{
    if has_timestamp_prefix(s) {
        lemma_no_site(s, s.len() - 1);
    }
}

} // verus!
