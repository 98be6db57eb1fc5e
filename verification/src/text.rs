//! Byte-string helpers: trimming, searching, lower-casing and splitting.
//!
//! Every helper has an exact functional contract against a spec function,
//! so the parsing and rewriting modules can state their own results in
//! closed form.

use vstd::prelude::*;

verus! {

/// ASCII whitespace, as `u8::is_ascii_whitespace` defines it.
pub open spec fn is_space(b: u8) -> bool {
    b == 0x20 || b == 0x09 || b == 0x0a || b == 0x0c || b == 0x0d
}

pub open spec fn trim_start_spec(s: Seq<u8>) -> Seq<u8>
    decreases s.len(),
{
    if s.len() > 0 && is_space(s[0]) {
        trim_start_spec(s.drop_first())
    } else {
        s
    }
}

pub open spec fn trim_end_spec(s: Seq<u8>) -> Seq<u8>
    decreases s.len(),
{
    if s.len() > 0 && is_space(s.last()) {
        trim_end_spec(s.drop_last())
    } else {
        s
    }
}

/// Both ends stripped of ASCII whitespace.
pub open spec fn trim_spec(s: Seq<u8>) -> Seq<u8> {
    trim_end_spec(trim_start_spec(s))
}

/// `pat` occurs in `s` at position `i`.
pub open spec fn match_at(s: Seq<u8>, pat: Seq<u8>, i: int) -> bool {
    0 <= i && i + pat.len() <= s.len() && s.subrange(i, i + pat.len()) == pat
}

/// Position of the first occurrence of `pat` at or after `from`.
pub open spec fn find_spec(s: Seq<u8>, pat: Seq<u8>, from: int) -> Option<int>
    decreases s.len() - from + 1,
{
    if from < 0 || from + pat.len() > s.len() {
        None
    } else if match_at(s, pat, from) {
        Some(from)
    } else {
        find_spec(s, pat, from + 1)
    }
}

pub open spec fn contains_spec(s: Seq<u8>, pat: Seq<u8>) -> bool {
    find_spec(s, pat, 0) is Some
}

pub open spec fn has_prefix(s: Seq<u8>, pat: Seq<u8>) -> bool {
    match_at(s, pat, 0)
}

pub open spec fn lower_byte(b: u8) -> u8 {
    if 0x41 <= b <= 0x5a {
        (b + 0x20) as u8
    } else {
        b
    }
}

/// ASCII lower case, byte for byte.
pub open spec fn lower_spec(s: Seq<u8>) -> Seq<u8> {
    s.map_values(|b: u8| lower_byte(b))
}

/// `s` split on the separator byte; a trailing separator yields a final
/// empty piece.
pub open spec fn split_spec(s: Seq<u8>, sep: u8) -> Seq<Seq<u8>>
    decreases s.len(),
{
    match find_spec(s, seq![sep], 0) {
        Option::None => seq![s],
        Option::Some(i) => if 0 <= i < s.len() {
            seq![s.subrange(0, i)] + split_spec(s.subrange(i + 1, s.len() as int), sep)
        } else {
            // never reached: a found position lies inside `s`
            seq![s]
        },
    }
}

/// A found position lies inside `s`, matches there, and is the first
/// match at or after `from`.
pub proof fn lemma_find_found(s: Seq<u8>, pat: Seq<u8>, from: int)
    requires
        find_spec(s, pat, from) is Some,
    ensures
        ({
            let i = find_spec(s, pat, from)->0;
            &&& from <= i
            &&& i + pat.len() <= s.len()
            &&& match_at(s, pat, i)
            &&& forall|k: int| from <= k < i ==> !match_at(s, pat, k)
        }),
    decreases s.len() - from + 1,
{
    if from < 0 || from + pat.len() > s.len() {
    } else if match_at(s, pat, from) {
    } else {
        lemma_find_found(s, pat, from + 1);
    }
}

/// When no position is found, no position at or after `from` matches.
pub proof fn lemma_find_none(s: Seq<u8>, pat: Seq<u8>, from: int)
    requires
        0 <= from,
        find_spec(s, pat, from) is None,
    ensures
        forall|k: int| from <= k ==> !match_at(s, pat, k),
    decreases s.len() - from + 1,
{
    if from + pat.len() > s.len() {
    } else {
        lemma_find_none(s, pat, from + 1);
    }
}

/// The first match at or after `from` is exactly the known one at `m`.
pub proof fn lemma_find_exact(s: Seq<u8>, pat: Seq<u8>, from: int, m: int)
    requires
        0 <= from <= m,
        match_at(s, pat, m),
        forall|k: int| from <= k < m ==> !match_at(s, pat, k),
    ensures
        find_spec(s, pat, from) == Some(m),
    decreases m - from,
{
    if from < m {
        lemma_find_exact(s, pat, from + 1, m);
    }
}

/// A known match bounds the first one.
pub proof fn lemma_find_le(s: Seq<u8>, pat: Seq<u8>, from: int, m: int)
    requires
        0 <= from <= m,
        match_at(s, pat, m),
    ensures
        find_spec(s, pat, from) is Some,
        from <= find_spec(s, pat, from)->0 <= m,
    decreases m - from,
{
    if match_at(s, pat, from) {
    } else if from < m {
        lemma_find_le(s, pat, from + 1, m);
    }
}

/// A one-byte pattern matches exactly where that byte stands.
pub proof fn lemma_match_single(s: Seq<u8>, b: u8, k: int)
    ensures
        match_at(s, seq![b], k) <==> (0 <= k < s.len() && s[k] == b),
{
    if 0 <= k < s.len() && s[k] == b {
        assert(s.subrange(k, k + 1) =~= seq![b]);
    }
    if match_at(s, seq![b], k) {
        assert(s.subrange(k, k + 1)[0] == b);
    }
}

/// No piece of a split contains the separator.
pub proof fn lemma_split_no_sep(s: Seq<u8>, sep: u8)
    ensures
        forall|k: int, j: int|
            0 <= k < split_spec(s, sep).len() && 0 <= j < split_spec(s, sep)[k].len()
                ==> split_spec(s, sep)[k][j] != sep,
    decreases s.len(),
{
    match find_spec(s, seq![sep], 0) {
        Option::None => {
            lemma_find_none(s, seq![sep], 0);
            assert forall|j: int| 0 <= j < s.len() implies s[j] != sep by {
                lemma_match_single(s, sep, j);
            }
        },
        Option::Some(i) => {
            lemma_find_found(s, seq![sep], 0);
            let head = s.subrange(0, i);
            let rest = s.subrange(i + 1, s.len() as int);
            assert forall|j: int| 0 <= j < head.len() implies head[j] != sep by {
                lemma_match_single(s, sep, j);
            }
            lemma_split_no_sep(rest, sep);
            assert forall|k: int, j: int|
                0 <= k < split_spec(s, sep).len() && 0 <= j < split_spec(s, sep)[k].len() implies
                split_spec(s, sep)[k][j] != sep by {
                if k == 0 {
                } else {
                    assert(split_spec(s, sep)[k] == split_spec(rest, sep)[k - 1]);
                }
            }
        },
    }
}

/// Splitting `line + sep + rest` peels off `line` when it is free of the
/// separator.
pub proof fn lemma_split_prepend(line: Seq<u8>, sep: u8, rest: Seq<u8>)
    requires
        forall|j: int| 0 <= j < line.len() ==> line[j] != sep,
    ensures
        split_spec(line + seq![sep] + rest, sep) == seq![line] + split_spec(rest, sep),
{
    let s = line + seq![sep] + rest;
    let m = line.len() as int;
    assert(s[m] == sep);
    assert(match_at(s, seq![sep], m)) by {
        lemma_match_single(s, sep, m);
    }
    assert forall|k: int| 0 <= k < m implies !match_at(s, seq![sep], k) by {
        assert(s[k] == line[k]);
        lemma_match_single(s, sep, k);
    }
    lemma_find_exact(s, seq![sep], 0, m);
    assert(s.subrange(0, m) =~= line);
    assert(s.subrange(m + 1, s.len() as int) =~= rest);
}

/// What trimming leaves: a non-space first byte when anything is left.
pub proof fn lemma_trim_start_props(s: Seq<u8>)
    ensures
        trim_start_spec(s).len() > 0 ==> !is_space(trim_start_spec(s)[0]),
    decreases s.len(),
{
    if s.len() > 0 && is_space(s[0]) {
        lemma_trim_start_props(s.drop_first());
    }
}

/// Trimming the end keeps a prefix and a non-space last byte.
pub proof fn lemma_trim_end_props(s: Seq<u8>)
    ensures
        trim_end_spec(s).len() > 0 ==> !is_space(trim_end_spec(s).last()),
        trim_end_spec(s).len() <= s.len(),
        forall|j: int| 0 <= j < trim_end_spec(s).len() ==> trim_end_spec(s)[j] == s[j],
    decreases s.len(),
{
    if s.len() > 0 && is_space(s.last()) {
        lemma_trim_end_props(s.drop_last());
        assert forall|j: int| 0 <= j < trim_end_spec(s).len() implies trim_end_spec(s)[j]
            == s[j] by {
            assert(trim_end_spec(s)[j] == s.drop_last()[j]);
        }
    }
}

/// A trimmed string is a contiguous piece of the original.
pub proof fn lemma_trim_is_subrange(s: Seq<u8>)
    ensures
        exists|lo: int, hi: int|
            0 <= lo <= hi <= s.len() && trim_spec(s) == #[trigger] s.subrange(lo, hi),
{
    lemma_trim_start_is_suffix(s);
    let lo = choose|lo: int|
        0 <= lo <= s.len() && trim_start_spec(s) == #[trigger] s.subrange(lo, s.len() as int);
    let t1 = trim_start_spec(s);
    lemma_trim_end_props(t1);
    let m = trim_end_spec(t1).len() as int;
    assert(trim_end_spec(t1) =~= t1.subrange(0, m));
    assert(s.subrange(lo, s.len() as int).subrange(0, m) =~= s.subrange(lo, lo + m));
    assert(trim_spec(s) == s.subrange(lo, lo + m));
}

proof fn lemma_trim_start_is_suffix(s: Seq<u8>)
    ensures
        exists|lo: int|
            0 <= lo <= s.len() && trim_start_spec(s) == #[trigger] s.subrange(lo, s.len() as int),
    decreases s.len(),
{
    if s.len() > 0 && is_space(s[0]) {
        lemma_trim_start_is_suffix(s.drop_first());
        let d = s.drop_first();
        let lo0 = choose|lo0: int|
            0 <= lo0 <= d.len() && trim_start_spec(d) == #[trigger] d.subrange(lo0, d.len() as int);
        assert(d.subrange(lo0, d.len() as int) =~= s.subrange(lo0 + 1, s.len() as int));
    } else {
        assert(s.subrange(0, s.len() as int) =~= s);
    }
}

fn is_space_b(b: u8) -> (r: bool)
    ensures
        r == is_space(b),
{
    b == 0x20 || b == 0x09 || b == 0x0a || b == 0x0c || b == 0x0d
}

proof fn lemma_trim_start_at(s: Seq<u8>, i: int)
    requires
        0 <= i <= s.len(),
        forall|k: int| 0 <= k < i ==> is_space(s[k]),
        i < s.len() ==> !is_space(s[i]),
    ensures
        trim_start_spec(s) == s.subrange(i, s.len() as int),
    decreases i,
{
    if i == 0 {
        assert(s.subrange(0, s.len() as int) =~= s);
    } else {
        assert(is_space(s[0]));
        lemma_trim_start_at(s.drop_first(), i - 1);
        assert(s.drop_first().subrange(i - 1, s.drop_first().len() as int) =~= s.subrange(
            i,
            s.len() as int,
        ));
    }
}

proof fn lemma_trim_end_at(s: Seq<u8>, j: int)
    requires
        0 <= j <= s.len(),
        forall|k: int| j <= k < s.len() ==> is_space(s[k]),
        j > 0 ==> !is_space(s[j - 1]),
    ensures
        trim_end_spec(s) == s.subrange(0, j),
    decreases s.len() - j,
{
    if j == s.len() {
        assert(s.subrange(0, s.len() as int) =~= s);
        if s.len() > 0 && is_space(s.last()) {
            assert(!is_space(s[j - 1]));
            assert(false);
        }
    } else {
        assert(is_space(s.last()));
        lemma_trim_end_at(s.drop_last(), j);
        assert(s.drop_last().subrange(0, j) =~= s.subrange(0, j));
    }
}

/// The bytes of `s` with ASCII whitespace stripped from both ends.
pub fn trim_bytes(s: &Vec<u8>) -> (r: Vec<u8>)
    ensures
        r@ == trim_spec(s@),
{
    let mut lo: usize = 0;
    while lo < s.len() && is_space_b(s[lo])
        invariant
            0 <= lo <= s.len(),
            forall|k: int| 0 <= k < lo ==> is_space(s@[k]),
        decreases s.len() - lo,
    {
        lo = lo + 1;
    }
    let mut hi: usize = s.len();
    while hi > lo && is_space_b(s[hi - 1])
        invariant
            lo <= hi <= s.len(),
            forall|k: int| hi <= k < s.len() ==> is_space(s@[k]),
        decreases hi,
    {
        hi = hi - 1;
    }
    let mut out: Vec<u8> = Vec::new();
    let mut i: usize = lo;
    while i < hi
        invariant
            lo <= i <= hi <= s.len(),
            out@ == s@.subrange(lo as int, i as int),
        decreases hi - i,
    {
        out.push(s[i]);
        assert(out@ =~= s@.subrange(lo as int, i + 1 as int));
        i = i + 1;
    }
    proof {
        lemma_trim_start_at(s@, lo as int);
        if hi == lo {
            lemma_trim_end_at(s@.subrange(lo as int, s@.len() as int), 0);
        } else {
            lemma_trim_end_at(s@.subrange(lo as int, s@.len() as int), hi - lo);
        }
        assert(s@.subrange(lo as int, s@.len() as int).subrange(0, hi - lo) =~= s@.subrange(
            lo as int,
            hi as int,
        ));
    }
    out
}

/// Whether `pat` occurs in `s` at exactly position `at`.
fn match_at_exec(s: &Vec<u8>, pat: &Vec<u8>, at: usize) -> (r: bool)
    requires
        at + pat@.len() <= s@.len(),
    ensures
        r == match_at(s@, pat@, at as int),
{
    let n = s.len();
    let m = pat.len();
    let mut k: usize = 0;
    while k < m
        invariant
            m == pat@.len(),
            n == s@.len(),
            at + m <= n,
            0 <= k <= m,
            forall|j: int| 0 <= j < k ==> s@[at + j] == pat@[j],
        decreases m - k,
    {
        if s[at + k] != pat[k] {
            assert(s@.subrange(at as int, at + pat@.len()) != pat@) by {
                assert(s@.subrange(at as int, at + pat@.len())[k as int] != pat@[k as int]);
            }
            return false;
        }
        k = k + 1;
    }
    assert(s@.subrange(at as int, at + pat@.len()) =~= pat@);
    true
}

/// Position of the first occurrence of `pat` in `s` at or after `from`.
pub fn find_from(s: &Vec<u8>, pat: &Vec<u8>, from: usize) -> (r: Option<usize>)
    ensures
        match r {
            Option::Some(i) => find_spec(s@, pat@, from as int) == Some(i as int),
            Option::None => find_spec(s@, pat@, from as int) is None,
        },
{
    if pat.len() > s.len() {
        proof {
            lemma_find_none_when_short(s@, pat@, from as int);
        }
        return None;
    }
    let n = s.len();
    let bound = n - pat.len();
    if from > bound {
        return None;
    }
    if pat.len() == 0 {
        assert(match_at(s@, pat@, from as int)) by {
            assert(s@.subrange(from as int, from as int) =~= pat@);
        }
        return Some(from);
    }
    let mut i: usize = from;
    while i <= bound
        invariant
            from <= i <= bound + 1,
            n == s@.len(),
            1 <= pat@.len(),
            pat@.len() + bound == s@.len(),
            find_spec(s@, pat@, from as int) == find_spec(s@, pat@, i as int),
        decreases bound + 1 - i,
    {
        if match_at_exec(s, pat, i) {
            return Some(i);
        }
        i = i + 1;
    }
    None
}

proof fn lemma_find_none_when_short(s: Seq<u8>, pat: Seq<u8>, from: int)
    requires
        pat.len() > s.len(),
    ensures
        find_spec(s, pat, from) is None,
    decreases s.len() - from + 1,
{
    if !(from < 0 || from + pat.len() > s.len()) {
        lemma_find_none_when_short(s, pat, from + 1);
    }
}

/// The bytes of `s` from `a` (inclusive) to `b` (exclusive).
pub fn sub_vec(s: &Vec<u8>, a: usize, b: usize) -> (r: Vec<u8>)
    requires
        a <= b <= s@.len(),
    ensures
        r@ == s@.subrange(a as int, b as int),
{
    let mut out: Vec<u8> = Vec::new();
    let mut i: usize = a;
    while i < b
        invariant
            a <= i <= b <= s@.len(),
            out@ == s@.subrange(a as int, i as int),
        decreases b - i,
    {
        out.push(s[i]);
        assert(out@ =~= s@.subrange(a as int, i + 1 as int));
        i = i + 1;
    }
    out
}

/// Whether `pat` occurs anywhere in `s`.
pub fn contains_sub(s: &Vec<u8>, pat: &Vec<u8>) -> (r: bool)
    ensures
        r == contains_spec(s@, pat@),
{
    match find_from(s, pat, 0) {
        Option::Some(_) => true,
        Option::None => false,
    }
}

/// Whether `s` begins with `pat`.
pub fn starts_with(s: &Vec<u8>, pat: &Vec<u8>) -> (r: bool)
    ensures
        r == has_prefix(s@, pat@),
{
    if pat.len() > s.len() {
        return false;
    }
    match_at_exec(s, pat, 0)
}

/// The bytes of `s` in ASCII lower case.
pub fn to_lower(s: &Vec<u8>) -> (r: Vec<u8>)
    ensures
        r@ == lower_spec(s@),
{
    let mut out: Vec<u8> = Vec::new();
    let mut i: usize = 0;
    while i < s.len()
        invariant
            0 <= i <= s@.len(),
            out@.len() == i,
            forall|k: int| 0 <= k < i ==> out@[k] == lower_byte(s@[k]),
        decreases s.len() - i,
    {
        let b = s[i];
        if 0x41 <= b && b <= 0x5a {
            out.push(b + 0x20);
        } else {
            out.push(b);
        }
        i = i + 1;
    }
    assert(out@ =~= lower_spec(s@));
    out
}

/// Appends every byte of `piece` to `out`.
pub fn push_all(out: &mut Vec<u8>, piece: &Vec<u8>)
    ensures
        final(out)@ == old(out)@ + piece@,
{
    let mut i: usize = 0;
    while i < piece.len()
        invariant
            0 <= i <= piece@.len(),
            out@ == old(out)@ + piece@.subrange(0, i as int),
        decreases piece.len() - i,
    {
        out.push(piece[i]);
        assert(out@ =~= old(out)@ + piece@.subrange(0, i + 1 as int));
        i = i + 1;
    }
    assert(out@ =~= old(out)@ + piece@);
}

/// Appends the UTF-8 bytes of a string slice to `out`.
pub fn push_str_bytes(out: &mut Vec<u8>, s: &str)
    ensures
        final(out)@ == old(out)@ + crate::lit(s),
{
    let piece = s.as_bytes_vec();
    push_all(out, &piece);
}

/// The UTF-8 bytes of a string slice as an owned vector.
pub fn str_bytes(s: &str) -> (r: Vec<u8>)
    ensures
        r@ == crate::lit(s),
{
    s.as_bytes_vec()
}

} // verus!
