//! Trimming of leading whitespace and leading ANSI color escape sequences.
//!
//! A diagnostic line may begin with whitespace and with color/cursor control
//! sequences of the narrow form `ESC [ <1-3 digits>? <; <1-2 digits>>? <m|G|K>`.
//! Trimming removes leading whitespace, then repeatedly removes one such
//! escape sequence followed by any newly exposed whitespace, and stops when
//! the remaining text starts with neither. Only an offset into the original
//! line is computed; no new text is allocated.

use vstd::prelude::*;

verus! {

/// ASCII whitespace: space, tab, line feed, form feed, carriage return.
pub open spec fn is_ws(b: u8) -> bool {
    b == 32 || b == 9 || b == 10 || b == 12 || b == 13
}

/// ASCII decimal digit.
pub open spec fn is_digit(b: u8) -> bool {
    48 <= b && b <= 57
}

/// Final byte of a recognized escape sequence: `m`, `G` or `K`.
pub open spec fn is_final_byte(b: u8) -> bool {
    b == 109 || b == 71 || b == 75
}

/// Number of consecutive ASCII digits in `s` starting at offset `i`.
pub open spec fn digit_run(s: Seq<u8>, i: int) -> int
    decreases s.len() - i,
{
    if 0 <= i && i < s.len() && is_digit(s[i]) {
        1 + digit_run(s, i + 1)
    } else {
        0
    }
}

/// Length of the color escape sequence starting at offset `i` of `s`, if one
/// matches there: the escape byte, `[`, an optional number of 1 to 3 digits,
/// optionally followed by `;` and a number of 1 to 2 digits, and a final byte
/// `m`, `G` or `K`. A digit group longer than allowed, a `;` without digits,
/// or a missing final byte make the whole sequence fail to match.
pub open spec fn sgr_at(s: Seq<u8>, i: int) -> Option<int> {
    if !(0 <= i && i + 2 <= s.len() && s[i] == 27 && s[i + 1] == 91) {
        None
    } else {
        let d = digit_run(s, i + 2);
        if d == 0 {
            if i + 2 < s.len() && is_final_byte(s[i + 2]) {
                Some(3)
            } else {
                None
            }
        } else if d <= 3 {
            let j = i + 2 + d;
            if j < s.len() && is_final_byte(s[j]) {
                Some(d + 3)
            } else if j < s.len() && s[j] == 59 {
                let e = digit_run(s, j + 1);
                if 1 <= e && e <= 2 && j + 1 + e < s.len() && is_final_byte(s[j + 1 + e]) {
                    Some(d + e + 4)
                } else {
                    None
                }
            } else {
                None
            }
        } else {
            None
        }
    }
}

/// First offset at or after `i` that does not hold whitespace (or the end).
pub open spec fn ws_end(s: Seq<u8>, i: int) -> int
    decreases s.len() - i,
{
    if 0 <= i && i < s.len() && is_ws(s[i]) {
        ws_end(s, i + 1)
    } else {
        i
    }
}

proof fn lemma_digit_run(s: Seq<u8>, i: int)
    requires
        0 <= i <= s.len(),
    ensures
        0 <= digit_run(s, i),
        i + digit_run(s, i) <= s.len(),
        forall|k: int| i <= k < i + digit_run(s, i) ==> is_digit(s[k]),
        i + digit_run(s, i) < s.len() ==> !is_digit(s[i + digit_run(s, i)]),
    decreases s.len() - i,
{
    if i < s.len() && is_digit(s[i]) {
        lemma_digit_run(s, i + 1);
    }
}

proof fn lemma_ws_end(s: Seq<u8>, i: int)
    requires
        0 <= i <= s.len(),
    ensures
        i <= ws_end(s, i) <= s.len(),
        ws_end(s, i) < s.len() ==> !is_ws(s[ws_end(s, i)]),
        forall|k: int| i <= k < ws_end(s, i) ==> is_ws(s[k]),
    decreases s.len() - i,
{
    if i < s.len() && is_ws(s[i]) {
        lemma_ws_end(s, i + 1);
    }
}

proof fn lemma_sgr_bounds(s: Seq<u8>, i: int)
    ensures
        match sgr_at(s, i) {
            Some(n) => 0 <= i && 3 <= n && i + n <= s.len(),
            None => true,
        },
{
    if 0 <= i && i + 2 <= s.len() && s[i] == 27 && s[i + 1] == 91 {
        lemma_digit_run(s, i + 2);
        let d = digit_run(s, i + 2);
        if 1 <= d <= 3 {
            let j = i + 2 + d;
            if j < s.len() && s[j] == 59 {
                lemma_digit_run(s, j + 1);
            }
        }
    }
}

/// Offset where the trimmed text begins, starting the scan at offset `i`:
/// skip whitespace, then skip a whole escape sequence if one matches, and
/// repeat until neither applies.
pub open spec fn trim_from(s: Seq<u8>, i: int) -> int
    decreases s.len() - i via trim_from_decreases

{
    let j = ws_end(s, i);
    match sgr_at(s, j) {
        Some(n) => trim_from(s, j + n),
        None => j,
    }
}

#[via_fn]
proof fn trim_from_decreases(s: Seq<u8>, i: int) {
    let j = ws_end(s, i);
    lemma_sgr_bounds(s, j);
    if 0 <= i && i <= s.len() {
        lemma_ws_end(s, i);
    }
}

/// Offset of the trimmed text of a whole line.
pub open spec fn trim_offset(s: Seq<u8>) -> int {
    trim_from(s, 0)
}

/// The trimmed text itself: the suffix of `s` with leading whitespace and
/// leading escape sequences removed.
pub open spec fn trimmed(s: Seq<u8>) -> Seq<u8> {
    s.subrange(trim_from(s, 0), s.len() as int)
}

pub proof fn lemma_trim_from_bounds(s: Seq<u8>, i: int)
    requires
        0 <= i <= s.len(),
    ensures
        i <= trim_from(s, i) <= s.len(),
    decreases s.len() - i,
{
    let j = ws_end(s, i);
    lemma_ws_end(s, i);
    lemma_sgr_bounds(s, j);
    match sgr_at(s, j) {
        Some(n) => {
            lemma_trim_from_bounds(s, j + n);
        },
        None => {},
    }
}

proof fn lemma_trim_from_stop(s: Seq<u8>, i: int)
    requires
        0 <= i <= s.len(),
    ensures
        trim_from(s, i) == s.len() || (!is_ws(s[trim_from(s, i)]) && sgr_at(
            s,
            trim_from(s, i),
        ) is None),
    decreases s.len() - i,
{
    let j = ws_end(s, i);
    lemma_ws_end(s, i);
    lemma_sgr_bounds(s, j);
    match sgr_at(s, j) {
        Some(n) => {
            lemma_trim_from_stop(s, j + n);
        },
        None => {},
    }
}

proof fn lemma_digit_run_skip(s: Seq<u8>, k: int, i: int)
    requires
        0 <= k <= s.len(),
        0 <= i,
    ensures
        digit_run(s.skip(k), i) == digit_run(s, k + i),
    decreases s.len() - k - i,
{
    let t = s.skip(k);
    if i < t.len() && is_digit(t[i]) {
        lemma_digit_run_skip(s, k, i + 1);
    }
}

proof fn lemma_sgr_at_skip(s: Seq<u8>, k: int, i: int)
    requires
        0 <= k <= s.len(),
        0 <= i,
    ensures
        sgr_at(s.skip(k), i) == sgr_at(s, k + i),
{
    let t = s.skip(k);
    assert(t.len() == s.len() - k);
    assert(forall|x: int| 0 <= x < t.len() ==> t[x] == s[k + x]);
    if 0 <= i && i + 2 <= t.len() && t[i] == 27 && t[i + 1] == 91 {
        lemma_digit_run_skip(s, k, i + 2);
        lemma_digit_run(s, k + i + 2);
        let d = digit_run(t, i + 2);
        if 1 <= d <= 3 {
            let j = i + 2 + d;
            if j < t.len() && t[j] == 59 {
                lemma_digit_run_skip(s, k, j + 1);
            }
        }
    }
}

/// Trimming is idempotent: trimming an already-trimmed line returns it
/// unchanged.
pub proof fn lemma_trim_idempotent(s: Seq<u8>)
    ensures
        trimmed(trimmed(s)) == trimmed(s),
{
    let k = trim_from(s, 0);
    lemma_trim_from_bounds(s, 0);
    lemma_trim_from_stop(s, 0);
    let t = trimmed(s);
    assert(t =~= s.skip(k));
    lemma_sgr_at_skip(s, k, 0);
    assert(sgr_at(t, 0) is None);
    if t.len() > 0 {
        assert(t[0] == s[k]);
        assert(!is_ws(t[0]));
    }
    assert(ws_end(t, 0) == 0);
    assert(trim_from(t, 0) == 0);
    assert(trimmed(t) =~= t);
}

/// The bytes of `s` from `i` (inclusive) to `k` (exclusive) consist only of
/// whitespace and whole color escape sequences.
pub open spec fn junk_region(s: Seq<u8>, i: int, k: int) -> bool
    decreases k - i via junk_region_decreases
{
    if i >= k {
        i == k
    } else if is_ws(s[i]) {
        junk_region(s, i + 1, k)
    } else {
        match sgr_at(s, i) {
            Some(n) => if i + n <= k {
                junk_region(s, i + n, k)
            } else {
                false
            },
            None => false,
        }
    }
}

#[via_fn]
proof fn junk_region_decreases(s: Seq<u8>, i: int, k: int) {
    lemma_sgr_bounds(s, i);
}

proof fn lemma_trim_junk_aux(s: Seq<u8>, i: int, k: int)
    requires
        0 <= i <= k <= s.len(),
        junk_region(s, i, k),
        k == s.len() || (!is_ws(s[k]) && sgr_at(s, k) is None),
    ensures
        trim_from(s, i) == k,
    decreases k - i,
{
    if i == k {
        assert(ws_end(s, k) == k);
        assert(sgr_at(s, k) is None);
    } else if is_ws(s[i]) {
        assert(ws_end(s, i) == ws_end(s, i + 1));
        lemma_trim_junk_aux(s, i + 1, k);
    } else {
        let n = sgr_at(s, i)->Some_0;
        assert(s[i] == 27);
        assert(ws_end(s, i) == i);
        lemma_sgr_bounds(s, i);
        lemma_trim_junk_aux(s, i + n, k);
    }
}

/// Trimming a line made of a junk region (whitespace and whole color escape
/// sequences, in any interleaving) followed by text that itself starts with
/// neither whitespace nor such an escape sequence yields exactly that text.
pub proof fn lemma_trim_past_junk(s: Seq<u8>, k: int)
    requires
        0 <= k <= s.len(),
        junk_region(s, 0, k),
        k == s.len() || (!is_ws(s[k]) && sgr_at(s, k) is None),
    ensures
        trim_offset(s) == k,
        trimmed(s) == s.subrange(k, s.len() as int),
{
    lemma_trim_junk_aux(s, 0, k);
}

/// The whole of `s` consists of whitespace and whole color escape sequences,
/// in any interleaving.
pub open spec fn is_junk(s: Seq<u8>) -> bool
    decreases s.len() via is_junk_decreases
{
    if s.len() == 0 {
        true
    } else if is_ws(s[0]) {
        is_junk(s.skip(1))
    } else {
        match sgr_at(s, 0) {
            Some(n) => is_junk(s.skip(n)),
            None => false,
        }
    }
}

#[via_fn]
proof fn is_junk_decreases(s: Seq<u8>) {
    lemma_sgr_bounds(s, 0);
}

proof fn lemma_digit_run_append(s: Seq<u8>, t: Seq<u8>, i: int)
    requires
        0 <= i,
        i + digit_run(s, i) < s.len(),
    ensures
        digit_run(s + t, i) == digit_run(s, i),
    decreases s.len() - i,
{
    assert(s.len() <= (s + t).len());
    assert(forall|x: int| 0 <= x < s.len() ==> (s + t)[x] == s[x]);
    if i < s.len() && is_digit(s[i]) {
        lemma_digit_run_append(s, t, i + 1);
    }
}

proof fn lemma_sgr_at_append(s: Seq<u8>, t: Seq<u8>, i: int)
    requires
        match sgr_at(s, i) {
            Some(n) => i + n <= s.len(),
            None => false,
        },
    ensures
        sgr_at(s + t, i) == sgr_at(s, i),
{
    let u = s + t;
    assert(forall|x: int| 0 <= x < s.len() ==> u[x] == s[x]);
    let d = digit_run(s, i + 2);
    lemma_digit_run(s, i + 2);
    if d == 0 {
        assert(digit_run(u, i + 2) == 0);
    } else {
        lemma_digit_run_append(s, t, i + 2);
        let j = i + 2 + d;
        if d <= 3 && j < s.len() && s[j] == 59 {
            let e = digit_run(s, j + 1);
            lemma_digit_run(s, j + 1);
            if 1 <= e <= 2 && j + 1 + e < s.len() && is_final_byte(s[j + 1 + e]) {
                lemma_digit_run_append(s, t, j + 1);
            }
        }
    }
}

proof fn lemma_junk_region_unskip(s: Seq<u8>, m: int, i: int, k: int)
    requires
        0 <= m <= s.len(),
        0 <= i <= k,
        m + k <= s.len(),
        junk_region(s.skip(m), i, k),
    ensures
        junk_region(s, m + i, m + k),
    decreases k - i,
{
    let u = s.skip(m);
    assert(forall|x: int| 0 <= x < u.len() ==> u[x] == s[m + x]);
    lemma_sgr_at_skip(s, m, i);
    if i == k {
    } else if is_ws(u[i]) {
        lemma_junk_region_unskip(s, m, i + 1, k);
    } else {
        let n = sgr_at(u, i)->Some_0;
        lemma_sgr_bounds(u, i);
        lemma_junk_region_unskip(s, m, i + n, k);
    }
}

proof fn lemma_junk_append(j: Seq<u8>, t: Seq<u8>)
    requires
        is_junk(j),
    ensures
        junk_region(j + t, 0, j.len() as int),
    decreases j.len(),
{
    let u = j + t;
    if j.len() == 0 {
    } else if is_ws(j[0]) {
        lemma_junk_append(j.skip(1), t);
        assert(u.skip(1) =~= j.skip(1) + t);
        lemma_junk_region_unskip(u, 1, 0, j.len() - 1);
        assert(u[0] == j[0]);
    } else {
        let n = sgr_at(j, 0)->Some_0;
        lemma_sgr_bounds(j, 0);
        lemma_sgr_at_append(j, t, 0);
        lemma_junk_append(j.skip(n), t);
        assert(u.skip(n) =~= j.skip(n) + t);
        lemma_junk_region_unskip(u, n, 0, j.len() - n);
    }
}

/// Trimming removes a leading run of whitespace and well-formed color escape
/// sequences, however interleaved, exactly: prepended to a text that itself
/// starts with neither whitespace nor such an escape sequence, the whole run
/// is removed and precisely that text remains.
pub proof fn lemma_trim_concat(j: Seq<u8>, t: Seq<u8>)
    requires
        is_junk(j),
        t.len() == 0 || (!is_ws(t[0]) && sgr_at(t, 0) is None),
    ensures
        trimmed(j + t) == t,
{
    let u = j + t;
    lemma_junk_append(j, t);
    assert(u.skip(j.len() as int) =~= t);
    lemma_sgr_at_skip(u, j.len() as int, 0);
    if t.len() > 0 {
        assert(u[j.len() as int] == t[0]);
    }
    lemma_trim_past_junk(u, j.len() as int);
    assert(trimmed(u) =~= t);
}

/// Number of consecutive ASCII digits in `s` starting at index `i`.
fn digit_run_len(s: &[u8], i: usize) -> (r: usize)
    requires
        i <= s@.len(),
    ensures
        r as int == digit_run(s@, i as int),
        i + r <= s@.len(),
{
    let mut j = i;
    while j < s.len() && s[j] >= 48 && s[j] <= 57
        invariant
            i <= j <= s@.len(),
            digit_run(s@, i as int) == j - i + digit_run(s@, j as int),
        decreases s@.len() - j,
    {
        j = j + 1;
    }
    j - i
}

/// If a recognized color escape sequence starts at offset `start` of `s`,
/// returns its length in bytes.
pub fn sgr_prefix_len(s: &[u8], start: usize) -> (r: Option<usize>)
    requires
        start <= s@.len(),
    ensures
        match r {
            Some(n) => sgr_at(s@, start as int) == Some(n as int),
            None => sgr_at(s@, start as int) is None,
        },
{
    if s.len() - start < 2 || s[start] != 27 || s[start + 1] != 91 {
        return None;
    }
    let d = digit_run_len(s, start + 2);
    if d == 0 {
        if start + 2 < s.len() && (s[start + 2] == 109 || s[start + 2] == 71 || s[start + 2] == 75) {
            Some(3)
        } else {
            None
        }
    } else if d <= 3 {
        let j = start + 2 + d;
        if j < s.len() && (s[j] == 109 || s[j] == 71 || s[j] == 75) {
            Some(d + 3)
        } else if j < s.len() && s[j] == 59 {
            let e = digit_run_len(s, j + 1);
            if 1 <= e && e <= 2 && j + 1 + e < s.len()
                && (s[j + 1 + e] == 109 || s[j + 1 + e] == 71 || s[j + 1 + e] == 75) {
                Some(d + e + 4)
            } else {
                None
            }
        } else {
            None
        }
    } else {
        None
    }
}

/// Offset of the first byte past the leading whitespace of `s`, scanning
/// from index `i`.
fn ws_end_index(s: &[u8], i: usize) -> (r: usize)
    requires
        i <= s@.len(),
    ensures
        r as int == ws_end(s@, i as int),
        i <= r <= s@.len(),
{
    let mut j = i;
    while j < s.len() && (s[j] == 32 || s[j] == 9 || s[j] == 10 || s[j] == 12 || s[j] == 13)
        invariant
            i <= j <= s@.len(),
            ws_end(s@, i as int) == ws_end(s@, j as int),
        decreases s@.len() - j,
    {
        j = j + 1;
    }
    j
}

/// Trims the whitespace and the color escape sequences at the start of the
/// line, returning the offset at which the remaining text begins.
pub fn trim_start_color(line: &[u8]) -> (r: usize)
    ensures
        r as int == trim_offset(line@),
        r <= line@.len(),
{
    let mut i: usize = 0;
    loop
        invariant
            i <= line@.len(),
            trim_from(line@, i as int) == trim_from(line@, 0),
        decreases line@.len() - i,
    {
        let j = ws_end_index(line, i);
        match sgr_prefix_len(line, j) {
            Some(n) => {
                let len = line.len();
                proof {
                    lemma_sgr_bounds(line@, j as int);
                    assert(j + n <= len);
                }
                i = j + n;
            },
            None => {
                proof {
                    lemma_trim_from_bounds(line@, 0);
                }
                return j;
            },
        }
    }
}

} // verus!
