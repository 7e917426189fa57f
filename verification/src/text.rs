//! Character sequences: conversion, white space, trimming, searching and
//! splitting.  Everything else in the library is built from these.

use vstd::prelude::*;
use vstd::string::*;

verus! {

/// The code points that carry the Unicode property `White_Space`.
pub open spec fn is_white_space(c: char) -> bool {
    let n = c as u32;
    ||| 0x09 <= n <= 0x0D
    ||| n == 0x20
    ||| n == 0x85
    ||| n == 0xA0
    ||| n == 0x1680
    ||| 0x2000 <= n <= 0x200A
    ||| n == 0x2028
    ||| n == 0x2029
    ||| n == 0x202F
    ||| n == 0x205F
    ||| n == 0x3000
}

/// Tells whether `c` is white space.
pub fn is_whitespace(c: char) -> (b: bool)
    ensures
        b == is_white_space(c),
{
    let n: u32 = c as u32;
    (0x09 <= n && n <= 0x0D) || n == 0x20 || n == 0x85 || n == 0xA0 || n == 0x1680 || (0x2000 <= n
        && n <= 0x200A) || n == 0x2028 || n == 0x2029 || n == 0x202F || n == 0x205F || n == 0x3000
}

/// `s` without its leading white space.
pub open spec fn trim_start_spec(s: Seq<char>) -> Seq<char>
    decreases s.len(),
{
    if s.len() > 0 && is_white_space(s[0]) {
        trim_start_spec(s.drop_first())
    } else {
        s
    }
}

/// `s` without its trailing white space.
pub open spec fn trim_end_spec(s: Seq<char>) -> Seq<char>
    decreases s.len(),
{
    if s.len() > 0 && is_white_space(s.last()) {
        trim_end_spec(s.drop_last())
    } else {
        s
    }
}

/// `s` without leading and trailing white space.
pub open spec fn trim_spec(s: Seq<char>) -> Seq<char> {
    trim_end_spec(trim_start_spec(s))
}

/// The characters of a string, in order.
pub fn chars_of(s: &str) -> (v: Vec<char>)
    ensures
        v@ == s@,
{
    let n: usize = s.unicode_len();
    let mut v: Vec<char> = Vec::new();
    let mut i: usize = 0;
    while i < n
        invariant
            n == s@.len(),
            i <= n,
            v@ == s@.subrange(0, i as int),
        decreases n - i,
    {
        let c = s.get_char(i);
        v.push(c);
        i += 1;
        assert(v@ =~= s@.subrange(0, i as int));
    }
    assert(s@.subrange(0, n as int) =~= s@);
    v
}

/// Wraps the collection of characters into a `String`, which std provides
/// through `FromIterator<char>`: the string holds exactly the given
/// characters, in order.
#[verifier::external_body]
pub(crate) fn string_of(v: &Vec<char>) -> (s: String)
    ensures
        s@ == v@,
{
    v.iter().collect()
}

/// The part of `v` from `lo` up to `hi`.
pub fn slice_of(v: &Vec<char>, lo: usize, hi: usize) -> (r: Vec<char>)
    requires
        lo <= hi <= v@.len(),
    ensures
        r@ == v@.subrange(lo as int, hi as int),
{
    let mut r: Vec<char> = Vec::new();
    let mut i: usize = lo;
    while i < hi
        invariant
            lo <= i <= hi,
            hi <= v@.len(),
            r@ == v@.subrange(lo as int, i as int),
        decreases hi - i,
    {
        r.push(v[i]);
        i += 1;
        assert(r@ =~= v@.subrange(lo as int, i as int));
    }
    r
}

/// Leading white space can be cut off in one piece: if the first `k`
/// characters are white space and the next one is not, what is left is the
/// rest.
pub proof fn lemma_trim_start_at(s: Seq<char>, k: int)
    requires
        0 <= k <= s.len(),
        forall|i: int| 0 <= i < k ==> is_white_space(#[trigger] s[i]),
        k < s.len() ==> !is_white_space(s[k]),
    ensures
        trim_start_spec(s) == s.subrange(k, s.len() as int),
    decreases k,
{
    if k == 0 {
        assert(s.subrange(0, s.len() as int) =~= s);
    } else {
        let t = s.drop_first();
        assert(is_white_space(s[0]));
        assert forall|i: int| 0 <= i < k - 1 implies is_white_space(#[trigger] t[i]) by {
            assert(t[i] == s[i + 1]);
        }
        lemma_trim_start_at(t, k - 1);
        assert(t.subrange(k - 1, t.len() as int) =~= s.subrange(k, s.len() as int));
    }
}

/// Trailing white space can be cut off in one piece: if everything from `k`
/// on is white space and the character before `k` is not, what is left is
/// the part before `k`.
pub proof fn lemma_trim_end_at(s: Seq<char>, k: int)
    requires
        0 <= k <= s.len(),
        forall|i: int| k <= i < s.len() ==> is_white_space(#[trigger] s[i]),
        k > 0 ==> !is_white_space(s[k - 1]),
    ensures
        trim_end_spec(s) == s.subrange(0, k),
    decreases s.len() - k,
{
    if k == s.len() {
        assert(s.subrange(0, k) =~= s);
    } else {
        let t = s.drop_last();
        assert(is_white_space(s.last()));
        assert forall|i: int| k <= i < t.len() implies is_white_space(#[trigger] t[i]) by {
            assert(t[i] == s[i]);
        }
        lemma_trim_end_at(t, k);
        assert(t.subrange(0, k) =~= s.subrange(0, k));
    }
}

/// The index of the first character of `v` at or after `lo`, and before
/// `hi`, that is not white space; `hi` if there is none.
pub fn skip_white_space(v: &Vec<char>, lo: usize, hi: usize) -> (k: usize)
    requires
        lo <= hi <= v@.len(),
    ensures
        lo <= k <= hi,
        forall|i: int| lo <= i < k ==> is_white_space(#[trigger] v@[i]),
        k < hi ==> !is_white_space(v@[k as int]),
        v@.subrange(k as int, hi as int) == trim_start_spec(v@.subrange(lo as int, hi as int)),
{
    let mut k: usize = lo;
    while k < hi && is_whitespace(v[k])
        invariant
            lo <= k <= hi,
            hi <= v@.len(),
            forall|i: int| lo <= i < k ==> is_white_space(#[trigger] v@[i]),
        decreases hi - k,
    {
        k += 1;
    }
    proof {
        let s = v@.subrange(lo as int, hi as int);
        assert forall|i: int| 0 <= i < k - lo implies is_white_space(#[trigger] s[i]) by {
            assert(s[i] == v@[lo + i]);
        }
        lemma_trim_start_at(s, k - lo);
        assert(s.subrange(k - lo, s.len() as int) =~= v@.subrange(k as int, hi as int));
    }
    k
}

/// The index just behind the last character of `v` before `hi`, and at or
/// after `lo`, that is not white space; `lo` if there is none.
pub fn skip_white_space_back(v: &Vec<char>, lo: usize, hi: usize) -> (k: usize)
    requires
        lo <= hi <= v@.len(),
    ensures
        lo <= k <= hi,
        forall|i: int| k <= i < hi ==> is_white_space(#[trigger] v@[i]),
        k > lo ==> !is_white_space(v@[k - 1]),
        v@.subrange(lo as int, k as int) == trim_end_spec(v@.subrange(lo as int, hi as int)),
{
    let mut k: usize = hi;
    while k > lo && is_whitespace(v[k - 1])
        invariant
            lo <= k <= hi,
            hi <= v@.len(),
            forall|i: int| k <= i < hi ==> is_white_space(#[trigger] v@[i]),
        decreases k - lo,
    {
        k -= 1;
    }
    proof {
        let s = v@.subrange(lo as int, hi as int);
        assert forall|i: int| k - lo <= i < s.len() implies is_white_space(#[trigger] s[i]) by {
            assert(s[i] == v@[lo + i]);
        }
        lemma_trim_end_at(s, k - lo);
        assert(s.subrange(0, k - lo) =~= v@.subrange(lo as int, k as int));
    }
    k
}

/// `v` without leading and trailing white space.
pub fn trim(v: &Vec<char>) -> (r: Vec<char>)
    ensures
        r@ == trim_spec(v@),
{
    let n: usize = v.len();
    let lo: usize = skip_white_space(v, 0, n);
    let hi: usize = skip_white_space_back(v, lo, n);
    proof {
        assert(v@.subrange(0, n as int) =~= v@);
    }
    slice_of(v, lo, hi)
}

/// `v` without leading white space.
pub fn trim_start(v: &Vec<char>) -> (r: Vec<char>)
    ensures
        r@ == trim_start_spec(v@),
{
    let n: usize = v.len();
    let lo: usize = skip_white_space(v, 0, n);
    proof {
        assert(v@.subrange(0, n as int) =~= v@);
    }
    slice_of(v, lo, n)
}

/// `v` without trailing white space.
pub fn trim_end(v: &Vec<char>) -> (r: Vec<char>)
    ensures
        r@ == trim_end_spec(v@),
{
    let n: usize = v.len();
    let hi: usize = skip_white_space_back(v, 0, n);
    proof {
        assert(v@.subrange(0, n as int) =~= v@);
    }
    slice_of(v, 0, hi)
}

/// `pat` stands in `s` at index `p`.
pub open spec fn matches_at(s: Seq<char>, pat: Seq<char>, p: int) -> bool {
    &&& 0 <= p
    &&& p + pat.len() <= s.len()
    &&& s.subrange(p, p + pat.len()) == pat
}

/// The first index at or after `p` where `pat` stands in `s`.
pub open spec fn find_from(s: Seq<char>, pat: Seq<char>, p: int) -> Option<int>
    decreases s.len() - p,
{
    if p < 0 || p + pat.len() > s.len() {
        None
    } else if matches_at(s, pat, p) {
        Some(p)
    } else if p >= s.len() {
        None
    } else {
        find_from(s, pat, p + 1)
    }
}

/// `pat` occurs somewhere in `s`.
pub open spec fn contains_spec(s: Seq<char>, pat: Seq<char>) -> bool {
    exists|p: int| matches_at(s, pat, p)
}

/// What `find_from` finds is the first occurrence at or after `p`.
pub proof fn lemma_find_from(s: Seq<char>, pat: Seq<char>, p: int)
    requires
        0 <= p,
    ensures
        match find_from(s, pat, p) {
            Some(q) => p <= q && matches_at(s, pat, q) && forall|i: int|
                p <= i < q ==> !matches_at(s, pat, i),
            None => forall|i: int| p <= i ==> !matches_at(s, pat, i),
        },
    decreases s.len() - p,
{
    if p + pat.len() > s.len() {
    } else if matches_at(s, pat, p) {
    } else if p >= s.len() {
        assert(s.subrange(p, p + pat.len()) =~= pat);
    } else {
        lemma_find_from(s, pat, p + 1);
    }
}

/// Tells whether `pat` stands in `v` at index `p`.
pub fn has_at(v: &Vec<char>, pat: &Vec<char>, p: usize) -> (b: bool)
    ensures
        b == matches_at(v@, pat@, p as int),
{
    let n: usize = v.len();
    let m: usize = pat.len();
    if m > n || p > n - m {
        return false;
    }
    let mut i: usize = 0;
    while i < m
        invariant
            n == v@.len(),
            m == pat@.len(),
            p + m <= n,
            i <= m,
            forall|j: int| 0 <= j < i ==> v@[p + j] == pat@[j],
        decreases m - i,
    {
        if v[p + i] != pat[i] {
            proof {
                let w = v@.subrange(p as int, p + m);
                assert(w[i as int] == v@[p + i]);
            }
            return false;
        }
        i += 1;
    }
    assert(v@.subrange(p as int, p + m) =~= pat@);
    true
}

/// The first index at or after `from` where `pat` stands in `v`.
pub fn find(v: &Vec<char>, pat: &Vec<char>, from: usize) -> (r: Option<usize>)
    ensures
        match r {
            Some(q) => find_from(v@, pat@, from as int) == Some(q as int),
            None => find_from(v@, pat@, from as int) is None,
        },
{
    let n: usize = v.len();
    let m: usize = pat.len();
    if m > n || from > n - m {
        return None;
    }
    let mut p: usize = from;
    loop
        invariant
            n == v@.len(),
            m == pat@.len(),
            m <= n,
            from <= p <= n - m,
            find_from(v@, pat@, from as int) == find_from(v@, pat@, p as int),
        decreases n - m - p,
    {
        if has_at(v, pat, p) {
            return Some(p);
        }
        if p == n - m {
            assert(find_from(v@, pat@, p + 1) is None);
            return None;
        }
        p += 1;
    }
}

/// Tells whether `pat` occurs in `v`.
pub fn contains(v: &Vec<char>, pat: &Vec<char>) -> (b: bool)
    ensures
        b == contains_spec(v@, pat@),
{
    proof {
        lemma_find_from(v@, pat@, 0);
    }
    find(v, pat, 0).is_some()
}

/// The pieces of `s` between the occurrences of `sep`, taken from the left
/// and without overlap.  There is always at least one piece; pieces may be
/// empty.
pub open spec fn split_spec(s: Seq<char>, sep: Seq<char>) -> Seq<Seq<char>>
    decreases s.len(),
{
    match find_from(s, sep, 0) {
        Some(p) => if sep.len() > 0 && 0 <= p && p + sep.len() <= s.len() {
            seq![s.subrange(0, p)] + split_spec(s.skip(p + sep.len()), sep)
        } else {
            seq![s]
        },
        None => seq![s],
    }
}

/// The character sequences that a vector of vectors holds.
pub open spec fn seqs_of(v: Seq<Vec<char>>) -> Seq<Seq<char>> {
    Seq::new(v.len(), |i: int| v[i]@)
}

/// Searching in a suffix is searching in the whole from further on.
pub proof fn lemma_find_in_suffix(s: Seq<char>, pat: Seq<char>, start: int, p: int)
    requires
        0 <= start <= s.len(),
        0 <= p,
    ensures
        find_from(s.skip(start), pat, p) == match find_from(s, pat, start + p) {
            Some(q) => Some(q - start),
            None => None,
        },
    decreases s.len() - start - p,
{
    let t = s.skip(start);
    if p + pat.len() > t.len() {
    } else {
        assert(t.subrange(p, p + pat.len()) =~= s.subrange(start + p, start + p + pat.len()));
        if matches_at(t, pat, p) {
        } else if p >= t.len() {
        } else {
            lemma_find_in_suffix(s, pat, start, p + 1);
        }
    }
}

/// Splits `v` at every occurrence of `sep`.
pub fn split(v: &Vec<char>, sep: &Vec<char>) -> (out: Vec<Vec<char>>)
    requires
        sep@.len() > 0,
    ensures
        seqs_of(out@) == split_spec(v@, sep@),
{
    let n: usize = v.len();
    let m: usize = sep.len();
    let mut out: Vec<Vec<char>> = Vec::new();
    let mut start: usize = 0;
    proof {
        assert(v@.skip(0) =~= v@);
        assert(seqs_of(out@) =~= Seq::<Seq<char>>::empty());
    }
    loop
        invariant
            n == v@.len(),
            m == sep@.len(),
            m > 0,
            start <= n,
            split_spec(v@, sep@) == seqs_of(out@) + split_spec(v@.skip(start as int), sep@),
        decreases n - start,
    {
        let ghost rest = v@.skip(start as int);
        let ghost before = seqs_of(out@);
        proof {
            lemma_find_in_suffix(v@, sep@, start as int, 0);
            lemma_find_from(v@, sep@, start as int);
        }
        match find(v, sep, start) {
            Some(q) => {
                let piece = slice_of(v, start, q);
                out.push(piece);
                proof {
                    assert(rest.subrange(0, q - start) =~= v@.subrange(start as int, q as int));
                    assert(rest.skip(q - start + m) =~= v@.skip(q + m));
                    assert(seqs_of(out@) =~= before + seq![piece@]);
                    assert(split_spec(rest, sep@) == seq![piece@] + split_spec(
                        v@.skip(q + m),
                        sep@,
                    ));
                    assert(before + (seq![piece@] + split_spec(v@.skip(q + m), sep@)) =~= (before
                        + seq![piece@]) + split_spec(v@.skip(q + m), sep@));
                }
                start = q + m;
            },
            None => {
                let piece = slice_of(v, start, n);
                out.push(piece);
                proof {
                    assert(piece@ =~= rest);
                    assert(seqs_of(out@) =~= before + seq![piece@]);
                }
                return out;
            },
        }
    }
}

/// The character sequences that a vector of strings holds.
pub open spec fn strs_of(v: Seq<String>) -> Seq<Seq<char>> {
    Seq::new(v.len(), |i: int| v[i]@)
}

/// Makes a string of each vector of characters.
pub fn strings_of(v: &Vec<Vec<char>>) -> (out: Vec<String>)
    ensures
        strs_of(out@) == seqs_of(v@),
{
    let mut out: Vec<String> = Vec::new();
    let mut i: usize = 0;
    while i < v.len()
        invariant
            i <= v@.len(),
            out@.len() == i,
            forall|j: int| 0 <= j < i ==> (#[trigger] out@[j])@ == v@[j]@,
        decreases v@.len() - i,
    {
        out.push(string_of(&v[i]));
        i += 1;
    }
    assert(strs_of(out@) =~= seqs_of(v@));
    out
}

/// The characters of a string that may be absent.
pub open spec fn str_opt(o: Option<&str>) -> Option<Seq<char>> {
    match o {
        Some(s) => Some(s@),
        None => None,
    }
}

/// The characters of an owned string that may be absent.
pub open spec fn string_opt(o: Option<String>) -> Option<Seq<char>> {
    match o {
        Some(s) => Some(s@),
        None => None,
    }
}

/// The sequence, or the empty one where there is none.
pub open spec fn or_empty(o: Option<Seq<char>>) -> Seq<char> {
    match o {
        Some(s) => s,
        None => Seq::empty(),
    }
}

/// Trimming at the start leaves a suffix of the text, which is empty or
/// starts with a character that is not white space.
pub proof fn lemma_trim_start_suffix(s: Seq<char>)
    ensures
        trim_start_spec(s).len() <= s.len(),
        trim_start_spec(s) == s.skip(s.len() - trim_start_spec(s).len()),
        trim_start_spec(s).len() > 0 ==> !is_white_space(trim_start_spec(s)[0]),
        forall|i: int|
            0 <= i < s.len() - trim_start_spec(s).len() ==> is_white_space(#[trigger] s[i]),
    decreases s.len(),
{
    if s.len() > 0 && is_white_space(s[0]) {
        let t = s.drop_first();
        lemma_trim_start_suffix(t);
        let r = trim_start_spec(t);
        assert(t.skip(t.len() - r.len()) =~= s.skip(s.len() - r.len()));
        assert forall|i: int| 0 <= i < s.len() - r.len() implies is_white_space(
            #[trigger] s[i],
        ) by {
            if i > 0 {
                assert(s[i] == t[i - 1]);
            }
        }
    } else {
        assert(s.skip(0) =~= s);
    }
}

/// Trimming at the end leaves a prefix of the text, which is empty or ends
/// with a character that is not white space.
pub proof fn lemma_trim_end_prefix(s: Seq<char>)
    ensures
        trim_end_spec(s).len() <= s.len(),
        trim_end_spec(s) == s.take(trim_end_spec(s).len() as int),
        trim_end_spec(s).len() > 0 ==> !is_white_space(trim_end_spec(s).last()),
        forall|i: int| trim_end_spec(s).len() <= i < s.len() ==> is_white_space(#[trigger] s[i]),
    decreases s.len(),
{
    if s.len() > 0 && is_white_space(s.last()) {
        let t = s.drop_last();
        lemma_trim_end_prefix(t);
        let r = trim_end_spec(t);
        assert(t.take(r.len() as int) =~= s.take(r.len() as int));
        assert forall|i: int| r.len() <= i < s.len() implies is_white_space(#[trigger] s[i]) by {
            if i < t.len() {
                assert(s[i] == t[i]);
            }
        }
    } else {
        assert(s.take(s.len() as int) =~= s);
    }
}

/// Trimming leaves a piece of the text, from some index `a` up to some
/// index `b`, that neither starts nor ends with white space.
pub proof fn lemma_trim_piece(s: Seq<char>) -> (r: (int, int))
    ensures
        0 <= r.0 <= r.1 <= s.len(),
        trim_spec(s) == s.subrange(r.0, r.1),
        r.0 < r.1 ==> !is_white_space(s[r.0]) && !is_white_space(s[r.1 - 1]),
{
    lemma_trim_start_suffix(s);
    let t = trim_start_spec(s);
    lemma_trim_end_prefix(t);
    let a = s.len() - t.len();
    let b = a + trim_end_spec(t).len();
    assert(t.take(trim_end_spec(t).len() as int) =~= s.subrange(a, b));
    if a < b {
        assert(t[0] == s[a]);
        assert(trim_end_spec(t).last() == s[b - 1]);
        if is_white_space(s[a]) {
            assert(false);
        }
    }
    (a, b)
}

/// Text that neither starts nor ends with white space is its own trimmed
/// form.
pub proof fn lemma_trim_fixed(s: Seq<char>)
    requires
        s.len() > 0 ==> !is_white_space(s[0]) && !is_white_space(s.last()),
    ensures
        trim_spec(s) == s,
{
}

/// The parts joined, with `sep` between every two.
pub open spec fn join_spec(parts: Seq<Seq<char>>, sep: Seq<char>) -> Seq<char>
    decreases parts.len(),
{
    if parts.len() == 0 {
        Seq::empty()
    } else if parts.len() == 1 {
        parts[0]
    } else {
        join_spec(parts.drop_last(), sep) + sep + parts.last()
    }
}

/// Joins the parts, with `sep` between every two.
pub fn join(parts: &Vec<Vec<char>>, sep: &Vec<char>) -> (r: Vec<char>)
    ensures
        r@ == join_spec(seqs_of(parts@), sep@),
{
    let mut r: Vec<char> = Vec::new();
    let ghost all = seqs_of(parts@);
    let mut i: usize = 0;
    proof {
        assert(all.take(0) =~= Seq::<Seq<char>>::empty());
    }
    while i < parts.len()
        invariant
            i <= parts@.len(),
            all == seqs_of(parts@),
            r@ == join_spec(all.take(i as int), sep@),
        decreases parts@.len() - i,
    {
        let ghost before = r@;
        if i > 0 {
            let mut s: Vec<char> = slice_of(sep, 0, sep.len());
            r.append(&mut s);
        }
        let mut part: Vec<char> = slice_of(&parts[i], 0, parts[i].len());
        r.append(&mut part);
        proof {
            let t = all.take(i + 1);
            assert(t.drop_last() =~= all.take(i as int));
            assert(t.last() == parts@[i as int]@);
            assert(sep@.subrange(0, sep@.len() as int) =~= sep@);
            assert(parts@[i as int]@.subrange(0, parts@[i as int]@.len() as int)
                =~= parts@[i as int]@);
            if i == 0 {
                assert(t[0] == parts@[0]@);
                assert(r@ =~= parts@[0]@);
            } else {
                assert(r@ =~= before + sep@ + parts@[i as int]@);
            }
        }
        i += 1;
    }
    proof {
        assert(all.take(i as int) =~= all);
    }
    r
}

} // verus!
