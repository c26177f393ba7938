//! The table-driven pattern classifier: turns one raw log line into at most
//! one structured [`StorageEvent`](crate::event::StorageEvent).
//!
//! Each recognized line shape is written down as a spec predicate over the
//! line's characters, stating exactly how the line decomposes into fixed
//! delimiters and extracted groups. The executable matchers are proved both
//! sound (a match implies a decomposition exists) and complete (whenever a
//! decomposition exists the matcher finds it, and extracts the same groups).

use vstd::prelude::*;
use vstd::string::{StrSliceExecFns, StringExecFns};
use crate::event::{EventKind, StorageEvent};
use crate::textscan::{occurs_at, starts_with_at, find_char_from, find_str_from};

verus! {

// ---------------------------------------------------------------------------
// Character classes used by the line grammars.
// ---------------------------------------------------------------------------

/// Lower-case ASCII letter.
pub open spec fn is_lower_char(c: char) -> bool {
    'a' <= c && c <= 'z'
}

/// ASCII decimal digit.
pub open spec fn is_digit_char(c: char) -> bool {
    '0' <= c && c <= '9'
}

/// Character allowed in a topology token: digits and colons.
pub open spec fn is_topo_char(c: char) -> bool {
    is_digit_char(c) || c == ':'
}

/// Character allowed in a block-error description: letters, spaces, slashes.
pub open spec fn is_error_kind_char(c: char) -> bool {
    is_lower_char(c) || ('A' <= c && c <= 'Z') || c == ' ' || c == '/'
}

/// The character classes the scanners below can run over.
#[derive(Clone, Copy, PartialEq, Eq, Structural, Debug)]
pub enum CharClass {
    Lower,
    Digit,
    Topo,
    ErrorKind,
}

/// Membership of a character in a class.
pub open spec fn in_class(cls: CharClass, c: char) -> bool {
    match cls {
        CharClass::Lower => is_lower_char(c),
        CharClass::Digit => is_digit_char(c),
        CharClass::Topo => is_topo_char(c),
        CharClass::ErrorKind => is_error_kind_char(c),
    }
}

/// Decides membership of a character in a class.
pub fn char_in_class(cls: CharClass, c: char) -> (r: bool)
    ensures
        r == in_class(cls, c),
{
    match cls {
        CharClass::Lower => 'a' <= c && c <= 'z',
        CharClass::Digit => '0' <= c && c <= '9',
        CharClass::Topo => ('0' <= c && c <= '9') || c == ':',
        CharClass::ErrorKind => ('a' <= c && c <= 'z') || ('A' <= c && c <= 'Z') || c == ' '
            || c == '/',
    }
}

/// All characters of `s` in `[from, to)` lie in `cls`.
pub open spec fn range_in_class(cls: CharClass, s: Seq<char>, from: int, to: int) -> bool {
    forall|i: int| from <= i < to ==> in_class(cls, s[i])
}

/// End of the maximal run of characters of `cls` in `s` starting at `from`.
pub fn scan_class(s: &str, from: usize, cls: CharClass) -> (end: usize)
    requires
        from <= s@.len(),
    ensures
        from <= end <= s@.len(),
        range_in_class(cls, s@, from as int, end as int),
        end < s@.len() ==> !in_class(cls, s@[end as int]),
{
    let n = s.unicode_len();
    let mut i: usize = from;
    while i < n
        invariant
            from <= i <= n,
            n == s@.len(),
            range_in_class(cls, s@, from as int, i as int),
        decreases n - i,
    {
        if !char_in_class(cls, s.get_char(i)) {
            return i;
        }
        i += 1;
    }
    i
}

/// Checks that every character of `s` in `[from, to)` lies in `cls`.
pub fn check_range_in_class(s: &str, from: usize, to: usize, cls: CharClass) -> (r: bool)
    requires
        from <= to <= s@.len(),
    ensures
        r == range_in_class(cls, s@, from as int, to as int),
{
    let mut i: usize = from;
    while i < to
        invariant
            from <= i <= to <= s@.len(),
            range_in_class(cls, s@, from as int, i as int),
        decreases to - i,
    {
        if !char_in_class(cls, s.get_char(i)) {
            return false;
        }
        i += 1;
    }
    true
}

/// A character of a subsequence occurring inside `s` is found in `s` itself.
pub proof fn lemma_occurs_index(s: Seq<char>, sub: Seq<char>, at: int, i: int)
    requires
        occurs_at(s, sub, at),
        0 <= i < sub.len(),
    ensures
        s[at + i] == sub[i],
{
    assert(s.subrange(at, at + sub.len() as int)[i] == s[at + i]);
}

/// A slice of an occurring subsequence occurs at the shifted position.
pub proof fn lemma_occurs_slice(s: Seq<char>, m: Seq<char>, at: int, lo: int, hi: int)
    requires
        occurs_at(s, m, at),
        0 <= lo <= hi <= m.len(),
    ensures
        occurs_at(s, m.subrange(lo, hi), at + lo),
{
    assert(s.subrange(at + lo, at + hi) =~= m.subrange(lo, hi)) by {
        assert forall|i: int| 0 <= i < hi - lo implies s[at + lo + i] == #[trigger] m[lo + i] by {
            lemma_occurs_index(s, m, at, lo + i);
        }
    }
}

/// Two adjacent occurrences combine into an occurrence of the concatenation.
pub proof fn lemma_occurs_concat(s: Seq<char>, a: Seq<char>, b: Seq<char>, at: int)
    requires
        occurs_at(s, a, at),
        occurs_at(s, b, at + a.len()),
    ensures
        occurs_at(s, a + b, at),
{
    assert(s.subrange(at, at + (a + b).len() as int) =~= a + b) by {
        assert forall|i: int| 0 <= i < a.len() + b.len() implies s[at + i] == (a + b)[i] by {
            if i < a.len() {
                lemma_occurs_index(s, a, at, i);
            } else {
                lemma_occurs_index(s, b, at + a.len(), i - a.len());
            }
        }
    }
}

// ---------------------------------------------------------------------------
// Target block error grammar:
// `blk_update_request: <kind> error, dev <name>, sector <n>`
// ---------------------------------------------------------------------------

/// Decomposition of a target-block-error line into its three groups: the
/// error description, the device node name, and the sector number. The line
/// is anchored at both ends.
pub open spec fn is_target_error_line(
    s: Seq<char>,
    kind: Seq<char>,
    dev: Seq<char>,
    sector: Seq<char>,
) -> bool {
    let head = "blk_update_request: "@;
    let mid1 = " error, dev "@;
    let mid2 = ", sector "@;
    &&& occurs_at(s, head, 0)
    &&& kind.len() > 0
    &&& range_in_class(CharClass::ErrorKind, kind, 0, kind.len() as int)
    &&& occurs_at(s, kind, head.len() as int)
    &&& occurs_at(s, mid1, (head.len() + kind.len()) as int)
    &&& dev.len() > 0
    &&& range_in_class(CharClass::Lower, dev, 0, dev.len() as int)
    &&& occurs_at(s, dev, (head.len() + kind.len() + mid1.len()) as int)
    &&& occurs_at(s, mid2, (head.len() + kind.len() + mid1.len() + dev.len()) as int)
    &&& sector.len() > 0
    &&& range_in_class(CharClass::Digit, sector, 0, sector.len() as int)
    &&& occurs_at(s, sector, (head.len() + kind.len() + mid1.len() + dev.len() + mid2.len()) as int)
    &&& s.len() == head.len() + kind.len() + mid1.len() + dev.len() + mid2.len() + sector.len()
}

/// The line matches the target-block-error rule.
pub open spec fn matches_target_error(s: Seq<char>) -> bool {
    exists|kind: Seq<char>, dev: Seq<char>, sector: Seq<char>|
        is_target_error_line(s, kind, dev, sector)
}

/// In any decomposition of `s`, the comma closing the error-description
/// group is the first comma at or after position 20, so every decomposition
/// extracts the same groups.
proof fn lemma_target_error_groups_unique(
    s: Seq<char>,
    kind: Seq<char>,
    dev: Seq<char>,
    sector: Seq<char>,
    c: int,
)
    requires
        is_target_error_line(s, kind, dev, sector),
        20 <= c < s.len(),
        s[c] == ',',
        forall|j: int| 20 <= j < c ==> s[j] != ',',
    ensures
        kind =~= s.subrange(20, c - 6),
        dev =~= s.subrange(c + 6, c + 6 + dev.len() as int),
        sector =~= s.subrange(c + 15 + dev.len() as int, s.len() as int),
        c == 26 + kind.len(),
        s.len() == c + 15 + dev.len() + sector.len(),
{
    reveal_strlit("blk_update_request: ");
    reveal_strlit(" error, dev ");
    reveal_strlit(", sector ");
    let mid1 = " error, dev "@;
    let mid2 = ", sector "@;
    let kl = kind.len() as int;
    let dl = dev.len() as int;
    // The comma of " error, dev " stands at 26 + kl.
    lemma_occurs_index(s, mid1, 20 + kl, 6);
    assert(s[26 + kl] == ',');
    // No comma stands before it, neither in the description group nor in
    // the " error" that closes it.
    assert forall|j: int| 20 <= j < 26 + kl implies s[j] != ',' by {
        if j < 20 + kl {
            lemma_occurs_index(s, kind, 20, j - 20);
            assert(in_class(CharClass::ErrorKind, s[j]));
        } else {
            lemma_occurs_index(s, mid1, 20 + kl, j - 20 - kl);
        }
    }
    assert(c == 26 + kl);
    assert(kind =~= s.subrange(20, c - 6)) by {
        assert forall|i: int| 0 <= i < kl implies kind[i] == s[20 + i] by {
            lemma_occurs_index(s, kind, 20, i);
        }
    }
    let ds = c + 6;
    assert(dev =~= s.subrange(ds, ds + dl)) by {
        assert forall|i: int| 0 <= i < dl implies dev[i] == s[ds + i] by {
            lemma_occurs_index(s, dev, ds, i);
        }
    }
    assert(sector =~= s.subrange(ds + dl + 9, s.len() as int)) by {
        assert forall|i: int| 0 <= i < sector.len() implies sector[i] == s[ds + dl + 9 + i] by {
            lemma_occurs_index(s, sector, ds + dl + 9, i);
        }
    }
}

/// Recognizes a target-block-error line and extracts the device name and the
/// sector number. Every decomposition of the line yields these same groups.
#[verifier::rlimit(60)]
pub fn match_target_error(line: &str) -> (r: Option<(String, String)>)
    ensures
        r is None ==> !matches_target_error(line@),
        r is Some ==> matches_target_error(line@),
        forall|kind: Seq<char>, dev: Seq<char>, sector: Seq<char>|
            is_target_error_line(line@, kind, dev, sector) ==> (r matches Some((d, x)) && d@
                == dev && x@ == sector),
{
    proof {
        reveal_strlit("blk_update_request: ");
        reveal_strlit(" error, dev ");
        reveal_strlit(", sector ");
        reveal_strlit(" error");
        reveal_strlit(", dev ");
    }
    let ghost s = line@;
    let ghost mid1 = " error, dev "@;
    let n = line.unicode_len();
    if !starts_with_at(line, 0, "blk_update_request: ") {
        return None;
    }
    // The first comma at or after the head closes the description group.
    let c = match find_char_from(line, 20, ',') {
        Some(c) => c,
        None => {
            proof {
                if matches_target_error(s) {
                    let (kind, dev, sector) = choose|kind: Seq<char>, dev: Seq<char>, sector:
                        Seq<char>| is_target_error_line(s, kind, dev, sector);
                    lemma_occurs_index(s, mid1, 20 + kind.len() as int, 6);
                }
            }
            return None;
        },
    };
    // In any decomposition the description group is nonempty, so its closing
    // comma stands at 27 or beyond; the six characters before it read
    // " error" and the six from it read ", dev ".
    if c < 27 {
        proof {
            if matches_target_error(s) {
                let (kind, dev, sector) = choose|kind: Seq<char>, dev: Seq<char>, sector:
                    Seq<char>| is_target_error_line(s, kind, dev, sector);
                lemma_target_error_groups_unique(s, kind, dev, sector, c as int);
            }
        }
        return None;
    }
    if !starts_with_at(line, c - 6, " error") {
        proof {
            if matches_target_error(s) {
                let (kind, dev, sector) = choose|kind: Seq<char>, dev: Seq<char>, sector:
                    Seq<char>| is_target_error_line(s, kind, dev, sector);
                lemma_target_error_groups_unique(s, kind, dev, sector, c as int);
                lemma_occurs_slice(s, mid1, c as int - 6, 0, 6);
                assert(mid1.subrange(0, 6) =~= " error"@);
            }
        }
        return None;
    }
    if !check_range_in_class(line, 20, c - 6, CharClass::ErrorKind) {
        proof {
            if matches_target_error(s) {
                let (kind, dev, sector) = choose|kind: Seq<char>, dev: Seq<char>, sector:
                    Seq<char>| is_target_error_line(s, kind, dev, sector);
                lemma_target_error_groups_unique(s, kind, dev, sector, c as int);
                assert forall|j: int| 20 <= j < c - 6 implies in_class(
                    CharClass::ErrorKind,
                    s[j],
                ) by {
                    lemma_occurs_index(s, kind, 20, j - 20);
                }
            }
        }
        return None;
    }
    if !starts_with_at(line, c, ", dev ") {
        proof {
            if matches_target_error(s) {
                let (kind, dev, sector) = choose|kind: Seq<char>, dev: Seq<char>, sector:
                    Seq<char>| is_target_error_line(s, kind, dev, sector);
                lemma_target_error_groups_unique(s, kind, dev, sector, c as int);
                lemma_occurs_slice(s, mid1, c as int - 6, 6, 12);
                assert(mid1.subrange(6, 12) =~= ", dev "@);
            }
        }
        return None;
    }
    let ds = c + 6;
    let de = scan_class(line, ds, CharClass::Lower);
    if de == ds {
        proof {
            if matches_target_error(s) {
                let (kind, dev, sector) = choose|kind: Seq<char>, dev: Seq<char>, sector:
                    Seq<char>| is_target_error_line(s, kind, dev, sector);
                lemma_target_error_groups_unique(s, kind, dev, sector, c as int);
                lemma_occurs_index(s, dev, c as int + 6, 0);
            }
        }
        return None;
    }
    if !starts_with_at(line, de, ", sector ") {
        proof {
            if matches_target_error(s) {
                let (kind, dev, sector) = choose|kind: Seq<char>, dev: Seq<char>, sector:
                    Seq<char>| is_target_error_line(s, kind, dev, sector);
                lemma_target_error_groups_unique(s, kind, dev, sector, c as int);
                let dl = dev.len() as int;
                lemma_occurs_index(s, ", sector "@, c as int + 6 + dl, 0);
                assert(s[c as int + 6 + dl] == ',');
                if (de as int) < c as int + 6 + dl {
                    lemma_occurs_index(s, dev, c as int + 6, de as int - (c as int + 6));
                    assert(in_class(CharClass::Lower, s[de as int]));
                }
                assert(de as int == c as int + 6 + dl);
            }
        }
        return None;
    }
    let xs = de + 9;
    let xe = scan_class(line, xs, CharClass::Digit);
    if xe == xs || xe < n {
        proof {
            if matches_target_error(s) {
                let (kind, dev, sector) = choose|kind: Seq<char>, dev: Seq<char>, sector:
                    Seq<char>| is_target_error_line(s, kind, dev, sector);
                lemma_target_error_groups_unique(s, kind, dev, sector, c as int);
                let dl = dev.len() as int;
                lemma_occurs_index(s, ", sector "@, c as int + 6 + dl, 0);
                if (de as int) < c as int + 6 + dl {
                    lemma_occurs_index(s, dev, c as int + 6, de as int - (c as int + 6));
                    assert(in_class(CharClass::Lower, s[de as int]));
                }
                assert(de as int == c as int + 6 + dl);
                assert forall|j: int| xs <= j < s.len() implies in_class(
                    CharClass::Digit,
                    s[j],
                ) by {
                    lemma_occurs_index(s, sector, xs as int, j - xs as int);
                }
                if xe == xs {
                    assert(in_class(CharClass::Digit, s[xs as int]));
                } else {
                    assert(in_class(CharClass::Digit, s[xe as int]));
                }
            }
        }
        return None;
    }
    let dev = String::from_str(line.substring_char(ds, de));
    let sector = String::from_str(line.substring_char(xs, n));
    proof {
        let kind0 = s.subrange(20, c as int - 6);
        assert(occurs_at(s, mid1, c as int - 6)) by {
            lemma_occurs_concat(s, " error"@, ", dev "@, c as int - 6);
            assert(" error"@ + ", dev "@ =~= mid1);
        }
        assert(is_target_error_line(s, kind0, dev@, sector@)) by {
            assert(occurs_at(s, kind0, 20));
            assert forall|i: int| 0 <= i < kind0.len() implies in_class(
                CharClass::ErrorKind,
                kind0[i],
            ) by {
                assert(kind0[i] == s[20 + i]);
            }
            assert(occurs_at(s, dev@, c as int - 6 + 12));
            assert(occurs_at(s, sector@, xs as int));
        }
        assert forall|kind: Seq<char>, devg: Seq<char>, sectorg: Seq<char>|
            is_target_error_line(s, kind, devg, sectorg) implies dev@ == devg && sector@
            == sectorg by {
            lemma_target_error_groups_unique(s, kind, devg, sectorg, c as int);
            let dl = devg.len() as int;
            lemma_occurs_index(s, ", sector "@, c as int + 6 + dl, 0);
            if (de as int) < c as int + 6 + dl {
                lemma_occurs_index(s, devg, c as int + 6, de as int - (c as int + 6));
                assert(in_class(CharClass::Lower, s[de as int]));
            }
            assert(de as int == c as int + 6 + dl);
            assert(devg =~= s.subrange(ds as int, de as int));
            assert(sectorg =~= s.subrange(xs as int, s.len() as int));
        }
        assert(matches_target_error(line@)) by {
            assert(is_target_error_line(line@, kind0, dev@, sector@));
        }
    }
    Some((dev, sector))
}

// ---------------------------------------------------------------------------
// Array recovery grammars: fixed phrasings of the mdraid subsystem.
// ---------------------------------------------------------------------------

/// Decomposition of a recovery-start line: `md: recovery of RAID array md<n>`
/// with nothing following the array number.
pub open spec fn is_recovery_start_line(s: Seq<char>, num: Seq<char>) -> bool {
    let lit = "md: recovery of RAID array md"@;
    &&& occurs_at(s, lit, 0)
    &&& num.len() > 0
    &&& range_in_class(CharClass::Digit, num, 0, num.len() as int)
    &&& occurs_at(s, num, lit.len() as int)
    &&& s.len() == lit.len() + num.len()
}

/// The line matches the recovery-start rule.
pub open spec fn matches_recovery_start(s: Seq<char>) -> bool {
    exists|num: Seq<char>| is_recovery_start_line(s, num)
}

/// Decomposition of a recovery-done line: `md: md<n>: recovery done` followed
/// by anything.
pub open spec fn is_recovery_done_line(s: Seq<char>, num: Seq<char>) -> bool {
    let head = "md: md"@;
    let tail = ": recovery done"@;
    &&& occurs_at(s, head, 0)
    &&& num.len() > 0
    &&& range_in_class(CharClass::Digit, num, 0, num.len() as int)
    &&& occurs_at(s, num, head.len() as int)
    &&& occurs_at(s, tail, head.len() + num.len() as int)
}

/// The line matches the recovery-done rule.
pub open spec fn matches_recovery_done(s: Seq<char>) -> bool {
    exists|num: Seq<char>| is_recovery_done_line(s, num)
}

/// Recognizes a recovery-start line.
pub fn match_recovery_start(line: &str) -> (r: bool)
    ensures
        r == matches_recovery_start(line@),
{
    proof {
        reveal_strlit("md: recovery of RAID array md");
    }
    let n = line.unicode_len();
    if !starts_with_at(line, 0, "md: recovery of RAID array md") {
        assert forall|num: Seq<char>| !is_recovery_start_line(line@, num) by {}
        return false;
    }
    let end = scan_class(line, 29, CharClass::Digit);
    if end > 29 && end == n {
        let ghost num = line@.subrange(29, n as int);
        assert(is_recovery_start_line(line@, num)) by {
            assert(occurs_at(line@, num, 29));
            assert forall|i: int| 0 <= i < num.len() implies in_class(
                CharClass::Digit,
                num[i],
            ) by {
                assert(num[i] == line@[29 + i]);
            }
        }
        true
    } else {
        assert forall|num: Seq<char>| !is_recovery_start_line(line@, num) by {
            if is_recovery_start_line(line@, num) {
                lemma_occurs_index(line@, num, 29, 0);
                if end < n {
                    assert(in_class(CharClass::Digit, line@[end as int])) by {
                        lemma_occurs_index(line@, num, 29, end - 29);
                    }
                }
            }
        }
        false
    }
}

/// Recognizes a recovery-done line.
pub fn match_recovery_done(line: &str) -> (r: bool)
    ensures
        r == matches_recovery_done(line@),
{
    proof {
        reveal_strlit("md: md");
        reveal_strlit(": recovery done");
    }
    let n = line.unicode_len();
    if !starts_with_at(line, 0, "md: md") {
        assert forall|num: Seq<char>| !is_recovery_done_line(line@, num) by {}
        return false;
    }
    let end = scan_class(line, 6, CharClass::Digit);
    if end > 6 && starts_with_at(line, end, ": recovery done") {
        let ghost num = line@.subrange(6, end as int);
        assert(is_recovery_done_line(line@, num)) by {
            assert(occurs_at(line@, num, 6));
            assert forall|i: int| 0 <= i < num.len() implies in_class(
                CharClass::Digit,
                num[i],
            ) by {
                assert(num[i] == line@[6 + i]);
            }
        }
        true
    } else {
        assert forall|num: Seq<char>| !is_recovery_done_line(line@, num) by {
            if is_recovery_done_line(line@, num) {
                // The digit run of any decomposition is exactly [6, end).
                lemma_occurs_index(line@, num, 6, 0);
                assert(line@[6] == num[0]);
                let close = 6 + num.len() as int;
                lemma_occurs_index(line@, ": recovery done"@, close, 0);
                assert(line@[close] == ':');
                if close > end as int {
                    // line[end] would sit inside the digit group.
                    lemma_occurs_index(line@, num, 6, end - 6);
                    assert(in_class(CharClass::Digit, line@[end as int]));
                } else if close < end as int {
                    // line[close] is ':', yet lies in the scanned digit run.
                    assert(in_class(CharClass::Digit, line@[close]));
                } else {
                    assert(occurs_at(line@, ": recovery done"@, end as int));
                }
            }
        }
        false
    }
}

// ---------------------------------------------------------------------------
// Unit attention grammar:
// `<bus> <topology>: Warning! Received an indication that the <rest>`
// ---------------------------------------------------------------------------

/// Decomposition of a unit-attention line: a lower-case bus token, a
/// topology token of digits and colons, the fixed warning phrase, and a
/// nonempty remainder.
pub open spec fn is_unit_attention_line(s: Seq<char>, bus: Seq<char>, topo: Seq<char>) -> bool {
    let phrase = ": Warning! Received an indication that the "@;
    &&& bus.len() > 0
    &&& range_in_class(CharClass::Lower, bus, 0, bus.len() as int)
    &&& occurs_at(s, bus, 0)
    &&& occurs_at(s, " "@, bus.len() as int)
    &&& topo.len() > 0
    &&& range_in_class(CharClass::Topo, topo, 0, topo.len() as int)
    &&& occurs_at(s, topo, bus.len() as int + 1)
    &&& occurs_at(s, phrase, bus.len() as int + 1 + topo.len() as int)
    &&& s.len() > bus.len() + 1 + topo.len() + phrase.len()
}

/// The line matches the unit-attention rule.
pub open spec fn matches_unit_attention(s: Seq<char>) -> bool {
    exists|bus: Seq<char>, topo: Seq<char>| is_unit_attention_line(s, bus, topo)
}

/// The bus token of any decomposition is the maximal leading lower-case run,
/// and the topology token ends exactly one place before the colon that opens
/// the warning phrase, so every decomposition extracts the same groups.
proof fn lemma_unit_attention_groups_unique(
    s: Seq<char>,
    bus: Seq<char>,
    topo: Seq<char>,
    b: int,
    te: int,
)
    requires
        is_unit_attention_line(s, bus, topo),
        0 <= b <= s.len(),
        range_in_class(CharClass::Lower, s, 0, b),
        b == s.len() || !is_lower_char(s[b]),
        b + 1 <= te <= s.len(),
        range_in_class(CharClass::Topo, s, b + 1, te),
        te == s.len() || !is_topo_char(s[te]),
    ensures
        bus =~= s.subrange(0, b),
        te >= b + 3,
        te - 1 == b + 1 + topo.len(),
        topo =~= s.subrange(b + 1, te - 1),
        occurs_at(s, ": Warning! Received an indication that the "@, te - 1),
        s.len() > te + 42,
{
    reveal_strlit(" ");
    reveal_strlit(": Warning! Received an indication that the ");
    let phrase = ": Warning! Received an indication that the "@;
    let bl = bus.len() as int;
    // The space after the bus token pins its length to the scanned run.
    lemma_occurs_index(s, " "@, bl, 0);
    assert(s[bl] == ' ');
    if bl < b {
        assert(in_class(CharClass::Lower, s[bl]));
    }
    if bl > b {
        lemma_occurs_index(s, bus, 0, b);
        assert(in_class(CharClass::Lower, s[b]));
    }
    assert(bl == b);
    assert(bus =~= s.subrange(0, b)) by {
        assert forall|i: int| 0 <= i < b implies bus[i] == s[i] by {
            lemma_occurs_index(s, bus, 0, i);
        }
    }
    let ts = b + 1;
    let tl = topo.len() as int;
    // The colon opening the phrase is still a topology character, the blank
    // after it is not, so the scanned run ends exactly one past the token.
    lemma_occurs_index(s, phrase, ts + tl, 0);
    assert(s[ts + tl] == ':');
    lemma_occurs_index(s, phrase, ts + tl, 1);
    assert(s[ts + tl + 1] == ' ');
    assert forall|i: int| ts <= i < ts + tl implies in_class(CharClass::Topo, s[i]) by {
        lemma_occurs_index(s, topo, ts, i - ts);
    }
    if te <= ts + tl {
        assert(in_class(CharClass::Topo, s[te]));
    }
    if te > ts + tl + 1 {
        assert(in_class(CharClass::Topo, s[ts + tl + 1]));
    }
    assert(te == ts + tl + 1);
    assert(topo =~= s.subrange(ts, te - 1)) by {
        assert forall|i: int| 0 <= i < tl implies topo[i] == s[ts + i] by {
            lemma_occurs_index(s, topo, ts, i);
        }
    }
}

/// Recognizes a unit-attention line and extracts the topology token. Every
/// decomposition of the line yields this same token.
pub fn match_unit_attention(line: &str) -> (r: Option<String>)
    ensures
        r is None ==> !matches_unit_attention(line@),
        r is Some ==> matches_unit_attention(line@),
        forall|bus: Seq<char>, topo: Seq<char>|
            is_unit_attention_line(line@, bus, topo) ==> (r matches Some(t) && t@ == topo),
{
    proof {
        reveal_strlit(" ");
        reveal_strlit(": Warning! Received an indication that the ");
    }
    let ghost s = line@;
    let n = line.unicode_len();
    let b = scan_class(line, 0, CharClass::Lower);
    if b == 0 {
        proof {
            if matches_unit_attention(s) {
                let (bus, topo) = choose|bus: Seq<char>, topo: Seq<char>|
                    is_unit_attention_line(s, bus, topo);
                lemma_occurs_index(s, bus, 0, 0);
            }
        }
        return None;
    }
    if !starts_with_at(line, b, " ") {
        proof {
            if matches_unit_attention(s) {
                let (bus, topo) = choose|bus: Seq<char>, topo: Seq<char>|
                    is_unit_attention_line(s, bus, topo);
                let bl = bus.len() as int;
                lemma_occurs_index(s, " "@, bl, 0);
                if bl > b as int {
                    lemma_occurs_index(s, bus, 0, b as int);
                }
                assert(bl == b as int);
            }
        }
        return None;
    }
    let ts = b + 1;
    let te = scan_class(line, ts, CharClass::Topo);
    if te - ts < 2 {
        proof {
            if matches_unit_attention(s) {
                let (bus, topo) = choose|bus: Seq<char>, topo: Seq<char>|
                    is_unit_attention_line(s, bus, topo);
                lemma_unit_attention_groups_unique(s, bus, topo, b as int, te as int);
            }
        }
        return None;
    }
    if !starts_with_at(line, te - 1, ": Warning! Received an indication that the ") {
        proof {
            if matches_unit_attention(s) {
                let (bus, topo) = choose|bus: Seq<char>, topo: Seq<char>|
                    is_unit_attention_line(s, bus, topo);
                lemma_unit_attention_groups_unique(s, bus, topo, b as int, te as int);
            }
        }
        return None;
    }
    if n - te < 43 {
        proof {
            if matches_unit_attention(s) {
                let (bus, topo) = choose|bus: Seq<char>, topo: Seq<char>|
                    is_unit_attention_line(s, bus, topo);
                lemma_unit_attention_groups_unique(s, bus, topo, b as int, te as int);
            }
        }
        return None;
    }
    let topo = String::from_str(line.substring_char(ts, te - 1));
    proof {
        let bus0 = s.subrange(0, b as int);
        assert(is_unit_attention_line(line@, bus0, topo@)) by {
            assert(occurs_at(s, bus0, 0));
            assert forall|i: int| 0 <= i < bus0.len() implies in_class(
                CharClass::Lower,
                bus0[i],
            ) by {
                assert(bus0[i] == s[i]);
            }
            assert(occurs_at(s, topo@, b as int + 1));
            assert forall|i: int| 0 <= i < topo@.len() implies in_class(
                CharClass::Topo,
                topo@[i],
            ) by {
                assert(topo@[i] == s[ts + i]);
            }
        }
        assert(matches_unit_attention(line@));
        assert forall|bus: Seq<char>, topog: Seq<char>|
            is_unit_attention_line(line@, bus, topog) implies topog == topo@ by {
            lemma_unit_attention_groups_unique(s, bus, topog, b as int, te as int);
        }
    }
    Some(topo)
}

// ---------------------------------------------------------------------------
// Array disk failure grammar:
// `md<...>: Disk failure on sd<x><n>, disabling device`
// ---------------------------------------------------------------------------

/// Decomposition of an array-disk-failure line: `md`, at least one further
/// character, the failure phrase, a device name of `sd` plus letters plus an
/// optional partition number, the closing phrase, and any remainder. The
/// device group of the decomposition is `sd` + `letters` + `digits`.
pub open spec fn is_md_fail_line(
    s: Seq<char>,
    mid: Seq<char>,
    letters: Seq<char>,
    digits: Seq<char>,
) -> bool {
    let sep = ": Disk failure on sd"@;
    let close = ", disabling device"@;
    &&& occurs_at(s, "md"@, 0)
    &&& mid.len() >= 1
    &&& occurs_at(s, mid, 2)
    &&& occurs_at(s, sep, 2 + mid.len() as int)
    &&& letters.len() > 0
    &&& range_in_class(CharClass::Lower, letters, 0, letters.len() as int)
    &&& occurs_at(s, letters, 2 + mid.len() as int + sep.len() as int)
    &&& range_in_class(CharClass::Digit, digits, 0, digits.len() as int)
    &&& occurs_at(s, digits, 2 + mid.len() as int + sep.len() as int + letters.len() as int)
    &&& occurs_at(s, close, 2 + mid.len() as int + sep.len() as int + letters.len() as int + digits.len() as int)
}

/// The line matches the array-disk-failure rule.
pub open spec fn matches_md_fail(s: Seq<char>) -> bool {
    exists|mid: Seq<char>, letters: Seq<char>, digits: Seq<char>|
        is_md_fail_line(s, mid, letters, digits)
}

/// Given where the failure phrase of a decomposition stands, its letter and
/// digit groups end exactly at the scanned run ends.
proof fn lemma_md_fail_groups_at(
    s: Seq<char>,
    mid: Seq<char>,
    letters: Seq<char>,
    digits: Seq<char>,
    le: int,
    dge: int,
)
    requires
        is_md_fail_line(s, mid, letters, digits),
        2 + mid.len() + 20 <= le <= s.len(),
        range_in_class(CharClass::Lower, s, 2 + mid.len() as int + 20, le),
        le == s.len() || !is_lower_char(s[le]),
        le <= dge <= s.len(),
        range_in_class(CharClass::Digit, s, le, dge),
        dge == s.len() || !is_digit_char(s[dge]),
    ensures
        le == 2 + mid.len() as int + 20 + letters.len() as int,
        dge == le + digits.len(),
        letters =~= s.subrange(2 + mid.len() as int + 20, le),
        digits =~= s.subrange(le, dge),
        occurs_at(s, ", disabling device"@, dge),
{
    reveal_strlit(": Disk failure on sd");
    reveal_strlit(", disabling device");
    let ls = 2 + mid.len() as int + 20;
    let ll = letters.len() as int;
    let dgl = digits.len() as int;
    assert forall|i: int| ls <= i < ls + ll implies in_class(CharClass::Lower, s[i]) by {
        lemma_occurs_index(s, letters, ls, i - ls);
    }
    assert forall|i: int| ls + ll <= i < ls + ll + dgl implies in_class(
        CharClass::Digit,
        s[i],
    ) by {
        lemma_occurs_index(s, digits, ls + ll, i - (ls + ll));
    }
    lemma_occurs_index(s, ", disabling device"@, ls + ll + dgl, 0);
    assert(s[ls + ll + dgl] == ',');
    // The letter run ends where a digit or the closing comma follows.
    if le < ls + ll {
        assert(in_class(CharClass::Lower, s[le]));
    }
    if le > ls + ll {
        if dgl > 0 {
            assert(in_class(CharClass::Digit, s[ls + ll]));
            assert(!is_lower_char(s[ls + ll]));
        }
        assert(!is_lower_char(s[ls + ll]));
    }
    assert(le == ls + ll);
    // The digit run ends at the closing comma.
    if dge < le + dgl {
        assert(in_class(CharClass::Digit, s[dge]));
    }
    if dge > le + dgl {
        assert(in_class(CharClass::Digit, s[le + dgl]));
    }
    assert(dge == le + dgl);
    assert(letters =~= s.subrange(ls, le)) by {
        assert forall|i: int| 0 <= i < ll implies letters[i] == s[ls + i] by {
            lemma_occurs_index(s, letters, ls, i);
        }
    }
    assert(digits =~= s.subrange(le, dge)) by {
        assert forall|i: int| 0 <= i < dgl implies digits[i] == s[le + i] by {
            lemma_occurs_index(s, digits, le, i);
        }
    }
}

/// Recognizes an array-disk-failure line and extracts the device name,
/// partition suffix included. The failure phrase may in principle occur more
/// than once in a line; the device group is taken at the first occurrence
/// that a well-formed device description follows.
pub fn match_md_fail(line: &str) -> (r: Option<String>)
    ensures
        r is None ==> !matches_md_fail(line@),
        r matches Some(d) ==> exists|mid: Seq<char>, letters: Seq<char>, digits: Seq<char>|
            is_md_fail_line(line@, mid, letters, digits) && d@ == "sd"@ + letters + digits,
{
    proof {
        reveal_strlit("md");
        reveal_strlit(": Disk failure on sd");
        reveal_strlit(", disabling device");
    }
    let ghost s = line@;
    let n = line.unicode_len();
    if !starts_with_at(line, 0, "md") {
        return None;
    }
    if n < 3 {
        return None;
    }
    let mut from: usize = 3;
    loop
        invariant
            3 <= from <= n,
            n == line@.len(),
            s == line@,
            occurs_at(line@, "md"@, 0),
            forall|mid: Seq<char>, letters: Seq<char>, digits: Seq<char>|
                is_md_fail_line(line@, mid, letters, digits) ==> 2 + mid.len() >= from,
        decreases n - from,
    {
        proof {
            reveal_strlit(": Disk failure on sd");
            reveal_strlit(", disabling device");
        }
        let p = match find_str_from(line, from, ": Disk failure on sd") {
            Some(p) => p,
            None => {
                proof {
                    if matches_md_fail(s) {
                        let (mid, letters, digits) = choose|mid: Seq<char>, letters: Seq<char>,
                            digits: Seq<char>| is_md_fail_line(s, mid, letters, digits);
                        assert(occurs_at(s, ": Disk failure on sd"@, 2 + mid.len() as int));
                    }
                }
                return None;
            },
        };
        let ls = p + 20;
        let le = scan_class(line, ls, CharClass::Lower);
        let dge = scan_class(line, le, CharClass::Digit);
        let ok = le > ls && starts_with_at(line, dge, ", disabling device");
        if ok {
            let device = String::from_str(line.substring_char(p + 18, dge));
            proof {
                let mid0 = s.subrange(2, p as int);
                let letters0 = s.subrange(ls as int, le as int);
                let digits0 = s.subrange(le as int, dge as int);
                assert(is_md_fail_line(line@, mid0, letters0, digits0)) by {
                    assert(occurs_at(s, mid0, 2));
                    assert(occurs_at(s, letters0, ls as int));
                    assert forall|i: int| 0 <= i < letters0.len() implies in_class(
                        CharClass::Lower,
                        letters0[i],
                    ) by {
                        assert(letters0[i] == s[ls + i]);
                    }
                    assert(occurs_at(s, digits0, le as int));
                    assert forall|i: int| 0 <= i < digits0.len() implies in_class(
                        CharClass::Digit,
                        digits0[i],
                    ) by {
                        assert(digits0[i] == s[le + i]);
                    }
                }
                assert(device@ =~= "sd"@ + letters0 + digits0) by {
                    reveal_strlit("sd");
                    lemma_occurs_index(s, ": Disk failure on sd"@, p as int, 18);
                    lemma_occurs_index(s, ": Disk failure on sd"@, p as int, 19);
                    assert forall|i: int| 0 <= i < dge - (p + 18) implies s.subrange(
                        p as int + 18,
                        dge as int,
                    )[i] == #[trigger] ("sd"@ + letters0 + digits0)[i] by {
                        assert(s.subrange(p as int + 18, dge as int)[i] == s[p + 18 + i]);
                    }
                }
                assert(matches_md_fail(line@));
            }
            return Some(device);
        }
        proof {
            assert forall|mid: Seq<char>, letters: Seq<char>, digits: Seq<char>|
                is_md_fail_line(line@, mid, letters, digits) implies 2 + mid.len() >= from + (
            p - from) + 1 by {
                if 2 + mid.len() < p {
                    assert(occurs_at(s, ": Disk failure on sd"@, 2 + mid.len() as int));
                }
                if 2 + mid.len() == p {
                    lemma_md_fail_groups_at(
                        s,
                        mid,
                        letters,
                        digits,
                        le as int,
                        dge as int,
                    );
                    lemma_occurs_index(s, letters, ls as int, 0);
                }
            }
        }
        from = p + 1;
    }
}


// ---------------------------------------------------------------------------
// The classifier itself.
// ---------------------------------------------------------------------------

/// The supplementary message of a target-block-error event, naming the
/// sector in question.
pub open spec fn target_detail(sector: Seq<char>) -> Seq<char> {
    "Device block "@ + sector + " is in question!"@
}

/// An entry is one of this system's own annotations when it carries the
/// fixed idempotency identifier.
pub open spec fn own_annotation(has_message_id: bool, message_id: Seq<char>) -> bool {
    has_message_id && crate::is_own_message_id(message_id)
}

/// The line matches at least one of the pattern rules.
pub open spec fn matches_any_rule(s: Seq<char>) -> bool {
    ||| matches_target_error(s)
    ||| matches_unit_attention(s)
    ||| matches_md_fail(s)
    ||| matches_recovery_start(s)
    ||| matches_recovery_done(s)
}

/// What the classifier must produce for a matching line. The rules are
/// ordered and the first match decides, so each case presumes the failure of
/// those before it.
pub open spec fn classification_of(s: Seq<char>, ev: StorageEvent) -> bool {
    if matches_target_error(s) {
        &&& ev.kind == EventKind::TargetBlockError
        &&& forall|kind: Seq<char>, dev: Seq<char>, sector: Seq<char>|
            is_target_error_line(s, kind, dev, sector) ==> ev.device_ref@ == dev && ev.detail@
                == target_detail(sector)
    } else if matches_unit_attention(s) {
        &&& ev.kind == EventKind::UnitAttentionNotice
        &&& forall|bus: Seq<char>, topo: Seq<char>|
            is_unit_attention_line(s, bus, topo) ==> ev.device_ref@ == topo
        &&& ev.detail@.len() == 0
    } else if matches_md_fail(s) {
        &&& ev.kind == EventKind::ArrayDiskFailure
        &&& exists|mid: Seq<char>, letters: Seq<char>, digits: Seq<char>|
            is_md_fail_line(s, mid, letters, digits) && ev.device_ref@ == "sd"@ + letters + digits
        &&& ev.detail@.len() == 0
    } else if matches_recovery_start(s) {
        &&& ev.kind == EventKind::ArrayRecoveryStart
        &&& ev.device_ref@.len() == 0
        &&& ev.detail@.len() == 0
    } else if matches_recovery_done(s) {
        &&& ev.kind == EventKind::ArrayRecoveryDone
        &&& ev.device_ref@.len() == 0
        &&& ev.detail@.len() == 0
    } else {
        false
    }
}

/// Classifies one raw log line. A line carrying this system's own
/// idempotency identifier is never an event, whatever it says; otherwise the
/// ordered pattern rules decide, and the first matching rule determines the
/// event, its extracted device reference, and its fixed metadata.
pub fn classify(raw_line: &str, has_message_id: bool, message_id: &str) -> (r: Option<
    StorageEvent,
>)
    ensures
        own_annotation(has_message_id, message_id@) ==> r is None,
        !own_annotation(has_message_id, message_id@) ==> (r is Some <==> matches_any_rule(
            raw_line@,
        )),
        r matches Some(ev) ==> ev.wf() && classification_of(raw_line@, ev),
{
    if has_message_id && crate::textscan::str_eq(message_id, crate::MSG_STORAGE_ID) {
        return None;
    }
    if let Some((dev, sector)) = match_target_error(raw_line) {
        let detail = String::from_str("Device block ").concat(sector.as_str()).concat(
            " is in question!",
        );
        proof {
            let (kind0, dev0, sector0) = choose|kind0: Seq<char>, dev0: Seq<char>, sector0:
                Seq<char>| is_target_error_line(raw_line@, kind0, dev0, sector0);
            assert(dev@ == dev0);
        }
        let ev = StorageEvent::new(EventKind::TargetBlockError, dev, detail);
        return Some(ev);
    }
    if let Some(topo) = match_unit_attention(raw_line) {
        proof {
            let (bus0, topo0) = choose|bus0: Seq<char>, topo0: Seq<char>|
                is_unit_attention_line(raw_line@, bus0, topo0);
            assert(topo@ == topo0);
        }
        let ev = StorageEvent::new(EventKind::UnitAttentionNotice, topo, String::new());
        return Some(ev);
    }
    if let Some(device) = match_md_fail(raw_line) {
        proof {
            reveal_strlit("sd");
        }
        let ev = StorageEvent::new(EventKind::ArrayDiskFailure, device, String::new());
        return Some(ev);
    }
    if match_recovery_start(raw_line) {
        let ev = StorageEvent::new(EventKind::ArrayRecoveryStart, String::new(), String::new());
        return Some(ev);
    }
    if match_recovery_done(raw_line) {
        let ev = StorageEvent::new(EventKind::ArrayRecoveryDone, String::new(), String::new());
        return Some(ev);
    }
    None
}

} // verus!
