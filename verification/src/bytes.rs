//! Byte-level primitives the parser and matcher are built on: substring
//! search, prefix/suffix tests, whitespace trimming, and splitting.

use vstd::prelude::*;

verus! {

/// `needle` occurs in `hay` starting at position `i`.
pub open spec fn is_sub_at(hay: Seq<u8>, needle: Seq<u8>, i: int) -> bool {
    0 <= i && i + needle.len() <= hay.len() && hay.subrange(i, i + needle.len()) == needle
}

/// `needle` occurs somewhere in `hay`.
pub open spec fn contains_seq(hay: Seq<u8>, needle: Seq<u8>) -> bool {
    exists|i: int| is_sub_at(hay, needle, i)
}

/// `prefix` starts `s`.
pub open spec fn has_prefix(s: Seq<u8>, prefix: Seq<u8>) -> bool {
    prefix.len() <= s.len() && s.subrange(0, prefix.len() as int) == prefix
}

/// `suffix` ends `s`.
pub open spec fn has_suffix(s: Seq<u8>, suffix: Seq<u8>) -> bool {
    suffix.len() <= s.len() && s.subrange(s.len() - suffix.len(), s.len() as int) == suffix
}

/// Whether `needle` occurs in `hay` starting exactly at `i`.
fn matches_at(hay: &[u8], needle: &[u8], i: usize) -> (r: bool)
    requires
        i + needle@.len() <= hay@.len(),
    ensures
        r == is_sub_at(hay@, needle@, i as int),
{
    let hlen = hay.len();
    let mut k: usize = 0;
    while k < needle.len()
        invariant
            0 <= k <= needle@.len(),
            i + needle@.len() <= hay@.len(),
            hlen == hay@.len(),
            forall|j: int| 0 <= j < k ==> hay@[i + j] == needle@[j],
        decreases needle@.len() - k,
    {
        if hay[i + k] != needle[k] {
            assert(hay@.subrange(i as int, i + needle@.len())[k as int] != needle@[k as int]);
            return false;
        }
        k = k + 1;
    }
    assert(hay@.subrange(i as int, i + needle@.len()) =~= needle@);
    true
}

/// Substring search: whether `needle` occurs anywhere in `hay`.
pub fn contains_bytes(hay: &[u8], needle: &[u8]) -> (r: bool)
    ensures
        r == contains_seq(hay@, needle@),
{
    if needle.len() > hay.len() {
        assert(forall|i: int| !is_sub_at(hay@, needle@, i));
        return false;
    }
    let end = hay.len() - needle.len();
    let mut i: usize = 0;
    loop
        invariant
            needle@.len() <= hay@.len(),
            end == hay@.len() - needle@.len(),
            0 <= i <= end,
            forall|j: int| 0 <= j < i ==> !is_sub_at(hay@, needle@, j),
        decreases end - i,
    {
        if matches_at(hay, needle, i) {
            return true;
        }
        if i == end {
            assert(forall|j: int| !is_sub_at(hay@, needle@, j));
            return false;
        }
        i = i + 1;
    }
}

/// Earliest position at or after `from` where `needle` occurs in `hay`.
pub fn find_sub_from(hay: &[u8], needle: &[u8], from: usize) -> (r: Option<usize>)
    ensures
        match r {
            Some(i) => from <= i && i + needle@.len() <= hay@.len() && is_sub_at(
                hay@,
                needle@,
                i as int,
            ) && forall|j: int| from <= j < i ==> !is_sub_at(hay@, needle@, j),
            None => forall|j: int| from <= j ==> !is_sub_at(hay@, needle@, j),
        },
{
    if needle.len() > hay.len() || from > hay.len() - needle.len() {
        assert(forall|j: int| from <= j ==> !is_sub_at(hay@, needle@, j));
        return None;
    }
    let end = hay.len() - needle.len();
    let mut i: usize = from;
    loop
        invariant
            needle@.len() <= hay@.len(),
            end == hay@.len() - needle@.len(),
            from <= i <= end,
            forall|j: int| from <= j < i ==> !is_sub_at(hay@, needle@, j),
        decreases end - i,
    {
        if matches_at(hay, needle, i) {
            return Some(i);
        }
        if i == end {
            assert(forall|j: int| from <= j ==> !is_sub_at(hay@, needle@, j));
            return None;
        }
        i = i + 1;
    }
}

/// Whether `prefix` starts `s`.
pub fn starts_with(s: &[u8], prefix: &[u8]) -> (r: bool)
    ensures
        r == has_prefix(s@, prefix@),
{
    if prefix.len() > s.len() {
        return false;
    }
    matches_at(s, prefix, 0)
}

/// Whether `suffix` ends `s`.
pub fn ends_with(s: &[u8], suffix: &[u8]) -> (r: bool)
    ensures
        r == has_suffix(s@, suffix@),
{
    if suffix.len() > s.len() {
        return false;
    }
    let r = matches_at(s, suffix, s.len() - suffix.len());
    assert(s@.subrange(s@.len() - suffix@.len(), s@.len() as int) == s@.subrange(
        (s@.len() - suffix@.len()) as int,
        s@.len() - suffix@.len() + suffix@.len(),
    ));
    r
}

/// A byte the parser treats as line whitespace.
pub open spec fn is_space(b: u8) -> bool {
    b == 32 || b == 9 || b == 13 || b == 10
}

/// `s` with leading whitespace removed.
pub open spec fn trim_front(s: Seq<u8>) -> Seq<u8>
    decreases s.len(),
{
    if s.len() > 0 && is_space(s[0]) {
        trim_front(s.drop_first())
    } else {
        s
    }
}

/// `s` with trailing whitespace removed.
pub open spec fn trim_back(s: Seq<u8>) -> Seq<u8>
    decreases s.len(),
{
    if s.len() > 0 && is_space(s.last()) {
        trim_back(s.drop_last())
    } else {
        s
    }
}

/// `s` with leading and trailing whitespace removed.
pub open spec fn trim_seq(s: Seq<u8>) -> Seq<u8> {
    trim_back(trim_front(s))
}

proof fn lemma_trim_front_chars(s: Seq<u8>, i: int)
    requires
        0 <= i <= s.len(),
        forall|k: int| 0 <= k < i ==> is_space(s[k]),
        i == s.len() || !is_space(s[i]),
    ensures
        trim_front(s) == s.subrange(i, s.len() as int),
    decreases i,
{
    if i == 0 {
        if s.len() > 0 && is_space(s[0]) {
            assert(false);
        }
        assert(s.subrange(0, s.len() as int) =~= s);
    } else {
        assert(is_space(s[0]));
        let t = s.drop_first();
        assert(t =~= s.subrange(1, s.len() as int));
        lemma_trim_front_chars(t, i - 1);
        assert(t.subrange(i - 1, t.len() as int) =~= s.subrange(i, s.len() as int));
    }
}

proof fn lemma_trim_back_chars(s: Seq<u8>, j: int)
    requires
        0 <= j <= s.len(),
        forall|k: int| j <= k < s.len() ==> is_space(s[k]),
        j == 0 || !is_space(s[j - 1]),
    ensures
        trim_back(s) == s.subrange(0, j),
    decreases s.len() - j,
{
    if j == s.len() {
        if s.len() > 0 && is_space(s.last()) {
            assert(false);
        }
        assert(s.subrange(0, s.len() as int) =~= s);
    } else {
        assert(is_space(s.last()));
        let t = s.drop_last();
        assert(t =~= s.subrange(0, s.len() - 1));
        lemma_trim_back_chars(t, j);
        assert(t.subrange(0, j) =~= s.subrange(0, j));
    }
}

/// Copy of `s` with leading and trailing whitespace removed.
pub fn trim(s: &[u8]) -> (r: Vec<u8>)
    ensures
        r@ == trim_seq(s@),
{
    let mut lo: usize = 0;
    while lo < s.len() && (s[lo] == 32 || s[lo] == 9 || s[lo] == 13 || s[lo] == 10)
        invariant
            0 <= lo <= s@.len(),
            forall|k: int| 0 <= k < lo ==> is_space(s@[k]),
        decreases s@.len() - lo,
    {
        lo = lo + 1;
    }
    proof {
        lemma_trim_front_chars(s@, lo as int);
    }
    let mut hi: usize = s.len();
    while hi > lo && (s[hi - 1] == 32 || s[hi - 1] == 9 || s[hi - 1] == 13 || s[hi - 1] == 10)
        invariant
            lo <= hi <= s@.len(),
            forall|k: int| hi <= k < s@.len() ==> is_space(s@[k]),
        decreases hi,
    {
        hi = hi - 1;
    }
    let ghost front = trim_front(s@);
    proof {
        assert(front == s@.subrange(lo as int, s@.len() as int));
        assert forall|k: int| hi - lo <= k < front.len() implies is_space(front[k]) by {
            assert(front[k] == s@[k + lo]);
        }
        if hi > lo {
            assert(!is_space(s@[hi - 1]));
            assert(front[hi - lo - 1] == s@[hi - 1]);
        }
        lemma_trim_back_chars(front, hi - lo);
    }
    let mut out: Vec<u8> = Vec::new();
    let mut i: usize = lo;
    while i < hi
        invariant
            lo <= i <= hi <= s@.len(),
            out@ == s@.subrange(lo as int, i as int),
        decreases hi - i,
    {
        out.push(s[i]);
        assert(out@ =~= s@.subrange(lo as int, i + 1));
        i = i + 1;
    }
    proof {
        assert(trim_back(front) == front.subrange(0, hi - lo));
        assert(front.subrange(0, hi - lo) =~= s@.subrange(lo as int, hi as int));
    }
    out
}

/// Index of the first occurrence of `b` in `s`, if any.
pub open spec fn find_byte(s: Seq<u8>, b: u8) -> Option<int>
    decreases s.len(),
{
    if s.len() == 0 {
        None
    } else if s[0] == b {
        Some(0int)
    } else {
        match find_byte(s.drop_first(), b) {
            Some(i) => Some(i + 1),
            None => None,
        }
    }
}

/// What `find_byte` returns: the least index holding `b`, or nothing.
pub proof fn lemma_find_byte(s: Seq<u8>, b: u8)
    ensures
        match find_byte(s, b) {
            Some(i) => 0 <= i < s.len() && s[i] == b && forall|k: int| 0 <= k < i ==> s[k] != b,
            None => forall|k: int| 0 <= k < s.len() ==> s[k] != b,
        },
    decreases s.len(),
{
    if s.len() > 0 && s[0] != b {
        lemma_find_byte(s.drop_first(), b);
        let t = s.drop_first();
        match find_byte(t, b) {
            Some(i) => {
                assert(s[i + 1] == t[i]);
                assert forall|k: int| 0 <= k < i + 1 implies s[k] != b by {
                    if k > 0 {
                        assert(s[k] == t[k - 1]);
                    }
                }
            },
            None => {
                assert forall|k: int| 0 <= k < s.len() implies s[k] != b by {
                    if k > 0 {
                        assert(s[k] == t[k - 1]);
                    }
                }
            },
        }
    }
}

proof fn lemma_find_byte_from(s: Seq<u8>, b: u8, i: int)
    requires
        0 <= i <= s.len(),
        forall|k: int| 0 <= k < i ==> s[k] != b,
    ensures
        i == s.len() ==> find_byte(s, b) is None,
        i < s.len() && s[i] == b ==> find_byte(s, b) == Some(i),
{
    lemma_find_byte(s, b);
    match find_byte(s, b) {
        Some(j) => {
            if i < s.len() && s[i] == b {
                if j < i {
                    assert(false);
                }
                if j > i {
                    assert(s[i] != b);
                }
            }
        },
        None => {},
    }
}

/// First position of `b` in `s`, searching forward.
pub fn find(s: &[u8], b: u8) -> (r: Option<usize>)
    ensures
        match r {
            Some(i) => i < s@.len() && s@[i as int] == b && find_byte(s@, b) == Some(i as int),
            None => find_byte(s@, b) is None,
        },
{
    let mut i: usize = 0;
    while i < s.len()
        invariant
            0 <= i <= s@.len(),
            forall|k: int| 0 <= k < i ==> s@[k] != b,
        decreases s@.len() - i,
    {
        if s[i] == b {
            proof {
                lemma_find_byte_from(s@, b, i as int);
            }
            return Some(i);
        }
        i = i + 1;
    }
    proof {
        lemma_find_byte_from(s@, b, s@.len() as int);
    }
    None
}

/// Index of the last occurrence of `b` in `s`, if any.
pub open spec fn rfind_byte(s: Seq<u8>, b: u8) -> Option<int>
    decreases s.len(),
{
    if s.len() == 0 {
        None
    } else if s.last() == b {
        Some(s.len() - 1)
    } else {
        rfind_byte(s.drop_last(), b)
    }
}

/// What `rfind_byte` returns: the greatest index holding `b`, or nothing.
pub proof fn lemma_rfind_byte(s: Seq<u8>, b: u8)
    ensures
        match rfind_byte(s, b) {
            Some(i) => 0 <= i < s.len() && s[i] == b && forall|k: int|
                i < k < s.len() ==> s[k] != b,
            None => forall|k: int| 0 <= k < s.len() ==> s[k] != b,
        },
    decreases s.len(),
{
    if s.len() > 0 && s.last() != b {
        let t = s.drop_last();
        lemma_rfind_byte(t, b);
        match rfind_byte(t, b) {
            Some(i) => {
                assert(s[i] == t[i]);
                assert forall|k: int| i < k < s.len() implies s[k] != b by {
                    if k < s.len() - 1 {
                        assert(s[k] == t[k]);
                    } else {
                        assert(s[k] == s.last());
                    }
                }
            },
            None => {
                assert forall|k: int| 0 <= k < s.len() implies s[k] != b by {
                    if k < s.len() - 1 {
                        assert(s[k] == t[k]);
                    } else {
                        assert(s[k] == s.last());
                    }
                }
            },
        }
    }
}

proof fn lemma_rfind_byte_from(s: Seq<u8>, b: u8, i: int)
    requires
        0 <= i <= s.len(),
        forall|k: int| i <= k < s.len() ==> s[k] != b,
    ensures
        i == 0 ==> rfind_byte(s, b) is None,
        i > 0 && s[i - 1] == b ==> rfind_byte(s, b) == Some(i - 1),
{
    lemma_rfind_byte(s, b);
    match rfind_byte(s, b) {
        Some(j) => {
            if i > 0 && s[i - 1] == b {
                if j > i - 1 {
                    assert(false);
                }
                if j < i - 1 {
                    assert(s[i - 1] != b);
                }
            }
        },
        None => {},
    }
}

/// Last position of `b` in `s`, searching backward.
pub fn rfind(s: &[u8], b: u8) -> (r: Option<usize>)
    ensures
        match r {
            Some(i) => i < s@.len() && s@[i as int] == b && rfind_byte(s@, b) == Some(i as int),
            None => rfind_byte(s@, b) is None,
        },
{
    let mut i: usize = s.len();
    while i > 0
        invariant
            0 <= i <= s@.len(),
            forall|k: int| i <= k < s@.len() ==> s@[k] != b,
        decreases i,
    {
        if s[i - 1] == b {
            proof {
                lemma_rfind_byte_from(s@, b, i as int);
            }
            return Some(i - 1);
        }
        i = i - 1;
    }
    proof {
        lemma_rfind_byte_from(s@, b, 0);
    }
    None
}

/// Copy of the range `[from, to)` of `s`.
pub fn sub_vec(s: &[u8], from: usize, to: usize) -> (r: Vec<u8>)
    requires
        0 <= from <= to <= s@.len(),
    ensures
        r@ == s@.subrange(from as int, to as int),
{
    let mut out: Vec<u8> = Vec::new();
    let mut i: usize = from;
    while i < to
        invariant
            from <= i <= to <= s@.len(),
            out@ == s@.subrange(from as int, i as int),
        decreases to - i,
    {
        out.push(s[i]);
        assert(out@ =~= s@.subrange(from as int, i + 1));
        i = i + 1;
    }
    out
}

/// Copy of `s`.
pub fn copy_bytes(s: &[u8]) -> (r: Vec<u8>)
    ensures
        r@ == s@,
{
    let r = sub_vec(s, 0, s.len());
    assert(s@.subrange(0, s@.len() as int) =~= s@);
    r
}

/// Whether two byte strings hold the same bytes.
pub fn bytes_eq(a: &[u8], b: &[u8]) -> (r: bool)
    ensures
        r == (a@ == b@),
{
    if a.len() != b.len() {
        return false;
    }
    let r = matches_at(a, b, 0);
    proof {
        if r {
            assert(a@.subrange(0, b@.len() as int) =~= a@);
        } else {
            if a@ == b@ {
                assert(a@.subrange(0, b@.len() as int) =~= b@);
            }
        }
    }
    r
}

/// The pieces of `s` between occurrences of the separator `sep`.
pub open spec fn split_seq(s: Seq<u8>, sep: u8) -> Seq<Seq<u8>>
    decreases s.len(),
    via split_seq_decreases
{
    match find_byte(s, sep) {
        None => seq![s],
        Some(i) => seq![s.subrange(0, i)] + split_seq(s.subrange(i + 1, s.len() as int), sep),
    }
}

#[via_fn]
proof fn split_seq_decreases(s: Seq<u8>, sep: u8) {
    lemma_find_byte(s, sep);
}

/// Split `s` at every occurrence of `sep`.
pub fn split(s: &[u8], sep: u8) -> (r: Vec<Vec<u8>>)
    ensures
        r.deep_view() == split_seq(s@, sep),
{
    let mut out: Vec<Vec<u8>> = Vec::new();
    let mut pos: usize = 0;
    proof {
        assert(s@.subrange(0, s@.len() as int) =~= s@);
        assert(out.deep_view() =~= Seq::<Seq<u8>>::empty());
        assert(out.deep_view() + split_seq(s@, sep) =~= split_seq(s@, sep));
    }
    loop
        invariant_except_break
            0 <= pos <= s@.len(),
            split_seq(s@, sep) == out.deep_view() + split_seq(
                s@.subrange(pos as int, s@.len() as int),
                sep,
            ),
        ensures
            out.deep_view() == split_seq(s@, sep),
        decreases s@.len() - pos,
    {
        let ghost rest = s@.subrange(pos as int, s@.len() as int);
        let mut i: usize = pos;
        while i < s.len() && s[i] != sep
            invariant
                pos <= i <= s@.len(),
                forall|k: int| pos <= k < i ==> s@[k] != sep,
            decreases s@.len() - i,
        {
            i = i + 1;
        }
        proof {
            assert forall|k: int| 0 <= k < i - pos implies rest[k] != sep by {
                assert(rest[k] == s@[k + pos]);
            }
            if i < s.len() {
                assert(rest[i - pos] == s@[i as int]);
            }
            lemma_find_byte_from(rest, sep, i - pos);
        }
        let piece = sub_vec(s, pos, i);
        proof {
            assert(s@.subrange(pos as int, i as int) =~= rest.subrange(0, i - pos));
        }
        let ghost old_dv = out.deep_view();
        out.push(piece);
        proof {
            assert(out.deep_view() =~~= old_dv + seq![s@.subrange(pos as int, i as int)]);
        }
        if i == s.len() {
            proof {
                assert(find_byte(rest, sep) is None);
                assert(split_seq(rest, sep) == seq![rest]);
                assert(rest.subrange(0, i - pos) =~= rest);
                assert(out.deep_view() =~= old_dv + seq![rest]);
                assert(old_dv + split_seq(rest, sep) =~= out.deep_view());
            }
            break;
        }
        proof {
            assert(find_byte(rest, sep) == Some(i - pos));
            assert(split_seq(rest, sep) == seq![rest.subrange(0, i - pos)] + split_seq(
                rest.subrange(i - pos + 1, rest.len() as int),
                sep,
            ));
            assert(rest.subrange(i - pos + 1, rest.len() as int) =~= s@.subrange(
                i + 1,
                s@.len() as int,
            ));
            assert(old_dv + split_seq(rest, sep) =~= out.deep_view() + split_seq(
                s@.subrange(i + 1, s@.len() as int),
                sep,
            ));
        }
        pos = i + 1;
    }
    out
}

} // verus!
