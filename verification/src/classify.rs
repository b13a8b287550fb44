//! Classification of diagnostic lines: a line is collapsible when its
//! trimmed text starts with one of a fixed set of progress keywords.

use vstd::prelude::*;
use crate::trim::trim_start_color;
use crate::trim::trimmed;
use vstd::string::StringSliceAdditionalSpecFns;

verus! {

/// The bytes of `s` start with the ASCII characters of `p`.
pub open spec fn starts_with_chars(s: Seq<u8>, p: Seq<char>) -> bool {
    p.len() <= s.len() && forall|i: int| 0 <= i < p.len() ==> s[i] == p[i] as u8
}

/// The trimmed text of `line` starts with one of the given prefixes.
pub open spec fn starts_with_any(line: Seq<u8>, prefixes: Seq<Seq<char>>) -> bool {
    exists|k: int| 0 <= k < prefixes.len() && starts_with_chars(trimmed(line), prefixes[k])
}

/// The keyword prefixes that open a transient progress line.
pub open spec fn capture_prefixes() -> Seq<Seq<char>> {
    seq![
        "Compiling"@,
        "Checking"@,
        "Updating"@,
        "Downloading"@,
        "Downloaded"@,
        "Blocking"@,
        "Adding"@,
        "Removing"@,
        "Downgrading"@,
    ]
}

/// A line is collapsible iff its trimmed text starts with a capture keyword.
pub open spec fn is_collapsible(line: Seq<u8>) -> bool {
    starts_with_any(line, capture_prefixes())
}

/// Whether the bytes of `s` from offset `off` on start with the ASCII
/// prefix `p`.
pub(crate) fn bytes_start_with(s: &[u8], off: usize, p: &str) -> (r: bool)
    requires
        off <= s@.len(),
        vstd::string::is_ascii(p),
    ensures
        r == starts_with_chars(s@.skip(off as int), p@),
{
    broadcast use vstd::string::is_ascii_spec_bytes;

    let pb = p.as_bytes();
    assert(pb@ =~= Seq::new(p@.len(), |i: int| p@[i] as u8));
    let n = s.len();
    if n - off < pb.len() {
        return false;
    }
    let ghost t = s@.skip(off as int);
    assert(forall|k: int| 0 <= k < t.len() ==> t[k] == s@[off + k]);
    let mut i: usize = 0;
    while i < pb.len()
        invariant
            0 <= i <= pb@.len(),
            off + pb@.len() <= n == s@.len(),
            t == s@.skip(off as int),
            forall|k: int| 0 <= k < t.len() ==> t[k] == s@[off + k],
            pb@ =~= Seq::new(p@.len(), |k: int| p@[k] as u8),
            forall|k: int| 0 <= k < i ==> t[k] == p@[k] as u8,
        decreases pb@.len() - i,
    {
        if s[off + i] != pb[i] {
            proof {
                assert(t[i as int] == s@[off + i]);
                assert(!starts_with_chars(t, p@));
            }
            return false;
        }
        i = i + 1;
    }
    true
}

/// Checks whether the line starts with one of the given prefixes, color
/// codes excluded. An empty prefix set matches no line.
pub fn starts_with(line: &[u8], prefixes: &[&str]) -> (r: bool)
    requires
        forall|k: int| 0 <= k < prefixes@.len() ==> vstd::string::is_ascii(#[trigger] prefixes@[k]),
    ensures
        r == starts_with_any(line@, prefixes@.map_values(|p: &str| p@)),
{
    let start = trim_start_color(line);
    proof {
        assert(line@.skip(start as int) =~= trimmed(line@));
    }
    let ghost specs = prefixes@.map_values(|p: &str| p@);
    let mut k: usize = 0;
    while k < prefixes.len()
        invariant
            0 <= k <= prefixes@.len(),
            start <= line@.len(),
            line@.skip(start as int) == trimmed(line@),
            specs == prefixes@.map_values(|p: &str| p@),
            forall|j: int| 0 <= j < prefixes@.len() ==> vstd::string::is_ascii(
                #[trigger] prefixes@[j],
            ),
            forall|j: int| 0 <= j < k ==> !starts_with_chars(trimmed(line@), #[trigger] specs[j]),
        decreases prefixes@.len() - k,
    {
        if bytes_start_with(line, start, prefixes[k]) {
            proof {
                assert(starts_with_chars(trimmed(line@), specs[k as int]));
            }
            return true;
        }
        k = k + 1;
    }
    false
}

/// Checks whether the line needs to be captured: whether it is a transient
/// progress line, to be collapsed in place.
pub fn need_to_capture(line: &[u8]) -> (r: bool)
    ensures
        r == is_collapsible(line@),
{
    let mut prefixes: Vec<&str> = Vec::new();
    prefixes.push("Compiling");
    prefixes.push("Checking");
    prefixes.push("Updating");
    prefixes.push("Downloading");
    prefixes.push("Downloaded");
    prefixes.push("Blocking");
    prefixes.push("Adding");
    prefixes.push("Removing");
    prefixes.push("Downgrading");
    proof {
        reveal_strlit("Compiling");
        reveal_strlit("Checking");
        reveal_strlit("Updating");
        reveal_strlit("Downloading");
        reveal_strlit("Downloaded");
        reveal_strlit("Blocking");
        reveal_strlit("Adding");
        reveal_strlit("Removing");
        reveal_strlit("Downgrading");
        assert forall|k: int| 0 <= k < prefixes@.len() implies vstd::string::is_ascii(
            #[trigger] prefixes@[k],
        ) by {
            assert(vstd::string::is_ascii("Compiling"));
            assert(vstd::string::is_ascii("Checking"));
            assert(vstd::string::is_ascii("Updating"));
            assert(vstd::string::is_ascii("Downloading"));
            assert(vstd::string::is_ascii("Downloaded"));
            assert(vstd::string::is_ascii("Blocking"));
            assert(vstd::string::is_ascii("Adding"));
            assert(vstd::string::is_ascii("Removing"));
            assert(vstd::string::is_ascii("Downgrading"));
        }
    }
    let r = starts_with(line, prefixes.as_slice());
    proof {
        assert(prefixes@.map_values(|p: &str| p@) =~= capture_prefixes());
    }
    r
}

} // verus!
