//! Featured artists: finding a "feat." clause in a title or an artist field,
//! and taking it apart into the base text and the list of names.

use crate::text::{
    chars_of, lemma_trim_piece, seqs_of, skip_white_space, slice_of, split, split_spec,
    string_of, strings_of, strs_of, trim, trim_end, trim_end_spec, trim_spec, trim_start,
    trim_start_spec,
};
use vstd::prelude::*;

verus! {

/// The keywords that introduce a list of featured artists, in lower case.
pub open spec fn keywords() -> Seq<Seq<char>> {
    seq![
        seq!['f', 'e', 'a', 't'],
        seq!['f', 't'],
        seq!['f', '.'],
        seq!['f', 'e', 'a', 't', 'u', 'r', 'i', 'n', 'g'],
    ]
}

/// The keywords, as values.
pub fn keyword_list() -> (kws: Vec<Vec<char>>)
    ensures
        seqs_of(kws@) == keywords(),
{
    let mut kws: Vec<Vec<char>> = Vec::new();
    kws.push(vec!['f', 'e', 'a', 't']);
    kws.push(vec!['f', 't']);
    kws.push(vec!['f', '.']);
    kws.push(vec!['f', 'e', 'a', 't', 'u', 'r', 'i', 'n', 'g']);
    proof {
        assert(kws@[0]@ =~= keywords()[0]);
        assert(kws@[1]@ =~= keywords()[1]);
        assert(kws@[2]@ =~= keywords()[2]);
        assert(kws@[3]@ =~= keywords()[3]);
        assert(seqs_of(kws@) =~= keywords());
    }
    kws
}

/// `c` is `k`, or the upper-case ASCII letter whose lower case is `k`.
pub open spec fn matches_lower(c: char, k: char) -> bool {
    c == k || ('A' <= c <= 'Z' && c as u32 + 32 == k as u32)
}

/// `kw` stands in `s` at index `p`, letter case aside.
pub open spec fn keyword_at(s: Seq<char>, p: int, kw: Seq<char>) -> bool {
    &&& 0 <= p
    &&& p + kw.len() <= s.len()
    &&& forall|i: int| 0 <= i < kw.len() ==> matches_lower(#[trigger] s[p + i], kw[i])
}

/// Some keyword of `kws` stands in `s` at index `p`.
pub open spec fn any_keyword_at(s: Seq<char>, p: int, kws: Seq<Seq<char>>) -> bool {
    exists|k: int| 0 <= k < kws.len() && keyword_at(s, p, #[trigger] kws[k])
}

/// The length of the longest keyword of `kws` that stands in `s` at index
/// `p`, if any does.
pub open spec fn longest_keyword_at(s: Seq<char>, p: int, kws: Seq<Seq<char>>) -> Option<nat>
    decreases kws.len(),
{
    if kws.len() == 0 {
        None
    } else {
        let rest = longest_keyword_at(s, p, kws.drop_last());
        let kw = kws.last();
        if keyword_at(s, p, kw) && (rest is None || kw.len() >= rest.unwrap()) {
            Some(kw.len())
        } else {
            rest
        }
    }
}

/// The longest keyword is a keyword that stands there, none that stands
/// there is longer, and there is one exactly if any keyword stands there.
pub proof fn lemma_longest_keyword_at(s: Seq<char>, p: int, kws: Seq<Seq<char>>)
    ensures
        longest_keyword_at(s, p, kws) is Some <==> any_keyword_at(s, p, kws),
        longest_keyword_at(s, p, kws) is Some ==> {
            let n = longest_keyword_at(s, p, kws).unwrap();
            &&& 0 <= p
            &&& p + n <= s.len()
            &&& exists|k: int|
                0 <= k < kws.len() && keyword_at(s, p, #[trigger] kws[k]) && kws[k].len() == n
            &&& forall|k: int|
                0 <= k < kws.len() && keyword_at(s, p, #[trigger] kws[k]) ==> kws[k].len() <= n
        },
    decreases kws.len(),
{
    if kws.len() > 0 {
        let init = kws.drop_last();
        lemma_longest_keyword_at(s, p, init);
        let rest = longest_keyword_at(s, p, init);
        let kw = kws.last();
        assert forall|k: int| 0 <= k < init.len() implies init[k] == kws[k] by {}
        if any_keyword_at(s, p, init) {
            let k = choose|k: int| 0 <= k < init.len() && keyword_at(s, p, #[trigger] init[k]);
            assert(keyword_at(s, p, kws[k]));
        }
        if rest is Some {
            let k = choose|k: int|
                0 <= k < init.len() && keyword_at(s, p, #[trigger] init[k]) && init[k].len()
                    == rest.unwrap();
            assert(keyword_at(s, p, kws[k]) && kws[k].len() == rest.unwrap());
        }
        if keyword_at(s, p, kw) {
            assert(keyword_at(s, p, kws[kws.len() - 1]));
        }
        if any_keyword_at(s, p, kws) {
            let k = choose|k: int| 0 <= k < kws.len() && keyword_at(s, p, #[trigger] kws[k]);
            if k < init.len() {
                assert(keyword_at(s, p, init[k]));
            }
        }
        assert forall|k: int| 0 <= k < kws.len() && keyword_at(s, p, #[trigger] kws[k]) implies {
            kws[k].len() <= longest_keyword_at(s, p, kws).unwrap()
        } by {
            if k < init.len() {
                assert(keyword_at(s, p, init[k]));
            }
        }
    }
}

/// Tells whether `kw` stands in `v` at index `p`, letter case aside.
pub fn is_keyword_at(v: &Vec<char>, p: usize, kw: &Vec<char>) -> (b: bool)
    ensures
        b == keyword_at(v@, p as int, kw@),
{
    let n: usize = v.len();
    let m: usize = kw.len();
    if m > n || p > n - m {
        return false;
    }
    let mut i: usize = 0;
    while i < m
        invariant
            n == v@.len(),
            m == kw@.len(),
            p + m <= n,
            i <= m,
            forall|j: int| 0 <= j < i ==> matches_lower(#[trigger] v@[p + j], kw@[j]),
        decreases m - i,
    {
        let c: char = v[p + i];
        let k: char = kw[i];
        let same: bool = c == k || ('A' <= c && c <= 'Z' && c as u32 + 32 == k as u32);
        if !same {
            assert(!matches_lower(v@[p + i], kw@[i as int]));
            return false;
        }
        i += 1;
    }
    true
}

/// The length of the longest keyword of `kws` that stands in `v` at index
/// `p`, if any does.
pub fn longest_keyword(v: &Vec<char>, p: usize, kws: &Vec<Vec<char>>) -> (r: Option<usize>)
    ensures
        match r {
            Some(n) => longest_keyword_at(v@, p as int, seqs_of(kws@)) == Some(n as nat),
            None => longest_keyword_at(v@, p as int, seqs_of(kws@)) is None,
        },
{
    let mut best: Option<usize> = None;
    let mut k: usize = 0;
    let ghost all = seqs_of(kws@);
    while k < kws.len()
        invariant
            k <= kws@.len(),
            all == seqs_of(kws@),
            match best {
                Some(n) => longest_keyword_at(v@, p as int, all.take(k as int)) == Some(n as nat),
                None => longest_keyword_at(v@, p as int, all.take(k as int)) is None,
            },
        decreases kws@.len() - k,
    {
        let kw = &kws[k];
        proof {
            assert(all.take(k + 1).drop_last() =~= all.take(k as int));
            assert(all.take(k + 1).last() == kw@);
        }
        if is_keyword_at(v, p, kw) {
            let longer: bool = match best {
                Some(n) => kw.len() >= n,
                None => true,
            };
            if longer {
                best = Some(kw.len());
            }
        }
        k += 1;
    }
    proof {
        assert(all.take(k as int) =~= all);
    }
    best
}

/// What is left of a feature clause once its keyword is gone: the trimmed
/// text without the longest keyword it starts with, without one full stop
/// behind that keyword, and without the white space around either.  Text
/// that starts with no keyword is only trimmed.
pub open spec fn remove_keyword_spec(content: Seq<char>, kws: Seq<Seq<char>>) -> Seq<char> {
    let t = trim_spec(content);
    match longest_keyword_at(t, 0, kws) {
        None => t,
        Some(n) => {
            let after = trim_start_spec(t.skip(n as int));
            if after.len() > 0 && after[0] == '.' {
                trim_start_spec(after.skip(1))
            } else {
                after
            }
        },
    }
}

/// Takes the leading keyword off a feature clause.
pub fn remove_keyword_from_content(content: &Vec<char>, kws: &Vec<Vec<char>>) -> (r: Vec<char>)
    ensures
        r@ == remove_keyword_spec(content@, seqs_of(kws@)),
{
    let t: Vec<char> = trim(content);
    let len: usize = t.len();
    proof {
        lemma_longest_keyword_at(t@, 0, seqs_of(kws@));
    }
    match longest_keyword(&t, 0, kws) {
        None => t,
        Some(n) => {
            let a: usize = skip_white_space(&t, n, len);
            proof {
                assert(t@.skip(n as int) =~= t@.subrange(n as int, len as int));
            }
            let ghost after = t@.subrange(a as int, len as int);
            if a < len && t[a] == '.' {
                let b: usize = skip_white_space(&t, a + 1, len);
                proof {
                    assert(after[0] == t@[a as int]);
                    assert(after.skip(1) =~= t@.subrange(a + 1, len as int));
                }
                slice_of(&t, b, len)
            } else {
                proof {
                    if after.len() > 0 {
                        assert(after[0] == t@[a as int]);
                    }
                }
                slice_of(&t, a, len)
            }
        },
    }
}

/// Every piece split at `sep`, the results in order.
pub open spec fn split_each_spec(pieces: Seq<Seq<char>>, sep: Seq<char>) -> Seq<Seq<char>>
    decreases pieces.len(),
{
    if pieces.len() == 0 {
        Seq::empty()
    } else {
        split_each_spec(pieces.drop_last(), sep) + split_spec(pieces.last(), sep)
    }
}

/// The pieces trimmed, without those that are empty then.
pub open spec fn trimmed_nonempty_spec(pieces: Seq<Seq<char>>) -> Seq<Seq<char>>
    decreases pieces.len(),
{
    if pieces.len() == 0 {
        Seq::empty()
    } else {
        let init = trimmed_nonempty_spec(pieces.drop_last());
        let t = trim_spec(pieces.last());
        if t.len() > 0 {
            init.push(t)
        } else {
            init
        }
    }
}

/// The separators between two names, next to the comma.
pub open spec fn and_word() -> Seq<char> {
    seq![' ', 'a', 'n', 'd', ' ']
}

/// The ampersand between two names.
pub open spec fn and_sign() -> Seq<char> {
    seq![' ', '&', ' ']
}

/// The names in a list of artists: the text is split at commas, each piece
/// at " and ", each of those at " & "; the pieces are trimmed and the empty
/// ones dropped.  The order of the text is kept, and so are duplicates.
pub open spec fn split_artists_spec(s: Seq<char>) -> Seq<Seq<char>> {
    trimmed_nonempty_spec(
        split_each_spec(split_each_spec(split_spec(s, seq![',']), and_word()), and_sign()),
    )
}

/// Splits every piece at `sep`.
pub fn split_each(pieces: &Vec<Vec<char>>, sep: &Vec<char>) -> (out: Vec<Vec<char>>)
    requires
        sep@.len() > 0,
    ensures
        seqs_of(out@) == split_each_spec(seqs_of(pieces@), sep@),
{
    let mut out: Vec<Vec<char>> = Vec::new();
    let mut i: usize = 0;
    let ghost all = seqs_of(pieces@);
    proof {
        assert(seqs_of(out@) =~= split_each_spec(all.take(0), sep@));
    }
    while i < pieces.len()
        invariant
            i <= pieces@.len(),
            all == seqs_of(pieces@),
            sep@.len() > 0,
            seqs_of(out@) == split_each_spec(all.take(i as int), sep@),
        decreases pieces@.len() - i,
    {
        let mut parts: Vec<Vec<char>> = split(&pieces[i], sep);
        let ghost before = seqs_of(out@);
        let ghost added = seqs_of(parts@);
        out.append(&mut parts);
        proof {
            assert(all.take(i + 1).drop_last() =~= all.take(i as int));
            assert(all.take(i + 1).last() == pieces@[i as int]@);
            assert(seqs_of(out@) =~= before + added);
        }
        i += 1;
    }
    proof {
        assert(all.take(i as int) =~= all);
    }
    out
}

/// Trims every piece and drops those that are empty then.
pub fn trimmed_nonempty(pieces: &Vec<Vec<char>>) -> (out: Vec<Vec<char>>)
    ensures
        seqs_of(out@) == trimmed_nonempty_spec(seqs_of(pieces@)),
{
    let mut out: Vec<Vec<char>> = Vec::new();
    let mut i: usize = 0;
    let ghost all = seqs_of(pieces@);
    proof {
        assert(seqs_of(out@) =~= trimmed_nonempty_spec(all.take(0)));
    }
    while i < pieces.len()
        invariant
            i <= pieces@.len(),
            all == seqs_of(pieces@),
            seqs_of(out@) == trimmed_nonempty_spec(all.take(i as int)),
        decreases pieces@.len() - i,
    {
        let t: Vec<char> = trim(&pieces[i]);
        let ghost before = seqs_of(out@);
        proof {
            assert(all.take(i + 1).drop_last() =~= all.take(i as int));
            assert(all.take(i + 1).last() == pieces@[i as int]@);
        }
        if t.len() > 0 {
            out.push(t);
            proof {
                assert(seqs_of(out@) =~= before.push(t@));
            }
        }
        i += 1;
    }
    proof {
        assert(all.take(i as int) =~= all);
    }
    out
}

/// The names in a list of artists.
pub fn split_artists(artists: &Vec<char>) -> (out: Vec<Vec<char>>)
    ensures
        seqs_of(out@) == split_artists_spec(artists@),
{
    let comma: Vec<char> = vec![','];
    let word: Vec<char> = vec![' ', 'a', 'n', 'd', ' '];
    let sign: Vec<char> = vec![' ', '&', ' '];
    proof {
        assert(comma@ =~= seq![',']);
        assert(word@ =~= and_word());
        assert(sign@ =~= and_sign());
    }
    let by_comma: Vec<Vec<char>> = split(artists, &comma);
    let by_word: Vec<Vec<char>> = split_each(&by_comma, &word);
    let by_sign: Vec<Vec<char>> = split_each(&by_word, &sign);
    trimmed_nonempty(&by_sign)
}

/// `c` opens a bracket.
pub open spec fn is_opening(c: char) -> bool {
    c == '(' || c == '['
}

/// The character that closes the bracket which `c` opens.
pub open spec fn closing_of(c: char) -> char {
    if c == '(' {
        ')'
    } else {
        ']'
    }
}

/// The index of the bracket that closes the one around index `k`, where
/// `depth` brackets of the kind `open` are open at `k`.  Only brackets of
/// that one kind count.
pub open spec fn matching_close(
    s: Seq<char>,
    open: char,
    close: char,
    k: int,
    depth: nat,
) -> Option<int>
    decreases s.len() - k,
{
    if k < 0 || k >= s.len() || depth == 0 {
        None
    } else if s[k] == open {
        matching_close(s, open, close, k + 1, depth + 1)
    } else if s[k] == close {
        if depth == 1 {
            Some(k)
        } else {
            matching_close(s, open, close, k + 1, (depth - 1) as nat)
        }
    } else {
        matching_close(s, open, close, k + 1, depth)
    }
}

/// The first bracketed feature clause at or after index `k`, as the indices
/// of its opening and of its closing bracket.  A bracket is followed to the
/// one that closes it; if what stands between them, trimmed, starts with a
/// keyword, that is the clause.  If not, the search goes on behind the
/// closing bracket.  A bracket that is never closed ends the search.
pub open spec fn bracketed_feat_from(s: Seq<char>, k: int, kws: Seq<Seq<char>>) -> Option<
    (int, int),
>
    decreases s.len() - k,
{
    if k < 0 || k >= s.len() {
        None
    } else if is_opening(s[k]) {
        match matching_close(s, s[k], closing_of(s[k]), k + 1, 1) {
            None => None,
            Some(j) => if k < j < s.len() {
                if any_keyword_at(trim_spec(s.subrange(k + 1, j)), 0, kws) {
                    Some((k, j))
                } else {
                    bracketed_feat_from(s, j + 1, kws)
                }
            } else {
                None
            },
        }
    } else {
        bracketed_feat_from(s, k + 1, kws)
    }
}

/// The closing bracket that `matching_close` finds stands at or after `k`.
pub proof fn lemma_matching_close(s: Seq<char>, open: char, close: char, k: int, depth: nat)
    requires
        0 <= k,
    ensures
        match matching_close(s, open, close, k, depth) {
            Some(j) => k <= j < s.len() && s[j] == close,
            None => true,
        },
    decreases s.len() - k,
{
    if k >= s.len() || depth == 0 {
    } else if s[k] == open {
        lemma_matching_close(s, open, close, k + 1, depth + 1);
    } else if s[k] == close {
        if depth != 1 {
            lemma_matching_close(s, open, close, k + 1, (depth - 1) as nat);
        }
    } else {
        lemma_matching_close(s, open, close, k + 1, depth);
    }
}

/// A bracketed feature clause starts with an opening bracket, ends with the
/// bracket that closes it, and holds a keyword at the start of its trimmed
/// content.
pub proof fn lemma_bracketed_feat_from(s: Seq<char>, k: int, kws: Seq<Seq<char>>)
    requires
        0 <= k,
    ensures
        match bracketed_feat_from(s, k, kws) {
            Some((i, j)) => {
                &&& k <= i < j < s.len()
                &&& is_opening(s[i])
                &&& s[j] == closing_of(s[i])
                &&& matching_close(s, s[i], closing_of(s[i]), i + 1, 1) == Some(j)
                &&& any_keyword_at(trim_spec(s.subrange(i + 1, j)), 0, kws)
            },
            None => true,
        },
    decreases s.len() - k,
{
    if k >= s.len() {
    } else if is_opening(s[k]) {
        lemma_matching_close(s, s[k], closing_of(s[k]), k + 1, 1);
        match matching_close(s, s[k], closing_of(s[k]), k + 1, 1) {
            None => {},
            Some(j) => {
                if !any_keyword_at(trim_spec(s.subrange(k + 1, j)), 0, kws) {
                    lemma_bracketed_feat_from(s, j + 1, kws);
                }
            },
        }
    } else {
        lemma_bracketed_feat_from(s, k + 1, kws);
    }
}

/// Finds the bracket that closes the one opened at index `at`.
pub fn find_matching_close(v: &Vec<char>, at: usize) -> (r: Option<usize>)
    requires
        at < v@.len(),
        is_opening(v@[at as int]),
    ensures
        match r {
            Some(j) => matching_close(v@, v@[at as int], closing_of(v@[at as int]), at + 1, 1)
                == Some(j as int) && at < j < v@.len(),
            None => matching_close(v@, v@[at as int], closing_of(v@[at as int]), at + 1, 1)
                is None,
        },
{
    let n: usize = v.len();
    let open: char = v[at];
    let close: char = if open == '(' {
        ')'
    } else {
        ']'
    };
    let mut depth: usize = 1;
    let mut j: usize = at + 1;
    proof {
        lemma_matching_close(v@, open, close, at + 1, 1);
    }
    while j < n
        invariant
            n == v@.len(),
            at < j <= n,
            1 <= depth <= j - at,
            open == v@[at as int],
            close == closing_of(open),
            matching_close(v@, open, close, at + 1, 1) == matching_close(
                v@,
                open,
                close,
                j as int,
                depth as nat,
            ),
        decreases n - j,
    {
        let c: char = v[j];
        if c == open {
            depth += 1;
        } else if c == close {
            if depth == 1 {
                return Some(j);
            }
            depth -= 1;
        }
        j += 1;
    }
    None
}

/// Finds the first bracketed feature clause.
pub fn find_bracketed_feat(v: &Vec<char>, kws: &Vec<Vec<char>>) -> (r: Option<(usize, usize)>)
    ensures
        match r {
            Some((i, j)) => bracketed_feat_from(v@, 0, seqs_of(kws@)) == Some((i as int, j as int))
                && i < j < v@.len(),
            None => bracketed_feat_from(v@, 0, seqs_of(kws@)) is None,
        },
{
    let n: usize = v.len();
    let mut k: usize = 0;
    while k < n
        invariant
            n == v@.len(),
            k <= n,
            bracketed_feat_from(v@, 0, seqs_of(kws@)) == bracketed_feat_from(
                v@,
                k as int,
                seqs_of(kws@),
            ),
        decreases n - k,
    {
        let c: char = v[k];
        if c == '(' || c == '[' {
            match find_matching_close(v, k) {
                None => {
                    return None;
                },
                Some(j) => {
                    let content: Vec<char> = slice_of(v, k + 1, j);
                    let t: Vec<char> = trim(&content);
                    proof {
                        lemma_longest_keyword_at(t@, 0, seqs_of(kws@));
                    }
                    if longest_keyword(&t, 0, kws).is_some() {
                        return Some((k, j));
                    }
                    k = j + 1;
                },
            }
        } else {
            k += 1;
        }
    }
    None
}

/// Whether `c` is a word character: a letter, a mark, a decimal digit, a
/// connector such as `_`, or a join control, as Unicode classes them.
pub uninterp spec fn word_char(c: char) -> bool;

/// Asks the `regex` crate whether `c` is a word character, by matching the
/// class `\w` against the text that holds `c` alone (`Regex::new`, then
/// `Regex::is_match`).  The answer depends on `c` only; it is the crate's
/// Unicode table for `\w` that decides it.
#[verifier::external_body]
pub(crate) fn is_word_char(c: char) -> (b: bool)
    ensures
        b == word_char(c),
{
    let mut buf = [0u8; 4];
    match regex::Regex::new(r"\w") {
        Ok(class) => class.is_match(c.encode_utf8(&mut buf)),
        Err(_) => false,
    }
}

/// No word character stands directly before index `p`.
pub open spec fn word_starts_at(s: Seq<char>, p: int) -> bool {
    p == 0 || (0 < p <= s.len() && !word_char(s[p - 1]))
}

/// No word character stands at index `q`.
pub open spec fn word_ends_at(s: Seq<char>, q: int) -> bool {
    q == s.len() || (0 <= q < s.len() && !word_char(s[q]))
}

/// A keyword of `kws` stands at index `p` as a whole word: no word
/// character touches it on either side.
pub open spec fn whole_keyword_at(s: Seq<char>, p: int, kws: Seq<Seq<char>>) -> bool {
    &&& word_starts_at(s, p)
    &&& exists|k: int|
        0 <= k < kws.len() && keyword_at(s, p, #[trigger] kws[k]) && word_ends_at(
            s,
            p + kws[k].len(),
        )
}

/// The first index at or after `p` where a keyword stands as a whole word.
pub open spec fn whole_keyword_from(s: Seq<char>, p: int, kws: Seq<Seq<char>>) -> Option<int>
    decreases s.len() - p,
{
    if p < 0 || p > s.len() {
        None
    } else if whole_keyword_at(s, p, kws) {
        Some(p)
    } else if p == s.len() {
        None
    } else {
        whole_keyword_from(s, p + 1, kws)
    }
}

/// What `whole_keyword_from` finds is the first such index.
pub proof fn lemma_whole_keyword_from(s: Seq<char>, p: int, kws: Seq<Seq<char>>)
    requires
        0 <= p,
    ensures
        match whole_keyword_from(s, p, kws) {
            Some(q) => p <= q <= s.len() && whole_keyword_at(s, q, kws) && forall|i: int|
                p <= i < q ==> !whole_keyword_at(s, i, kws),
            None => forall|i: int| p <= i <= s.len() ==> !whole_keyword_at(s, i, kws),
        },
    decreases s.len() - p,
{
    if p > s.len() {
    } else if whole_keyword_at(s, p, kws) {
    } else if p == s.len() {
    } else {
        lemma_whole_keyword_from(s, p + 1, kws);
    }
}

/// Tells whether a keyword stands at index `p` as a whole word.
pub fn is_whole_keyword_at(v: &Vec<char>, p: usize, kws: &Vec<Vec<char>>) -> (b: bool)
    requires
        p <= v@.len(),
    ensures
        b == whole_keyword_at(v@, p as int, seqs_of(kws@)),
{
    let n: usize = v.len();
    let ghost all = seqs_of(kws@);
    let mut k: usize = 0;
    while k < kws.len()
        invariant
            n == v@.len(),
            p <= n,
            k <= kws@.len(),
            all == seqs_of(kws@),
            forall|i: int|
                0 <= i < k ==> !(keyword_at(v@, p as int, #[trigger] all[i]) && word_ends_at(
                    v@,
                    p + all[i].len(),
                )),
        decreases kws@.len() - k,
    {
        let kw = &kws[k];
        if is_keyword_at(v, p, kw) {
            let q: usize = p + kw.len();
            if q == n || !is_word_char(v[q]) {
                assert(keyword_at(v@, p as int, all[k as int]) && word_ends_at(
                    v@,
                    p + all[k as int].len(),
                ));
                return p == 0 || !is_word_char(v[p - 1]);
            }
        }
        k += 1;
    }
    false
}

/// Finds the first keyword that stands as a whole word.
pub fn find_non_bracketed_feat(v: &Vec<char>, kws: &Vec<Vec<char>>) -> (r: Option<usize>)
    ensures
        match r {
            Some(p) => whole_keyword_from(v@, 0, seqs_of(kws@)) == Some(p as int) && p <= v@.len(),
            None => whole_keyword_from(v@, 0, seqs_of(kws@)) is None,
        },
{
    let n: usize = v.len();
    let mut p: usize = 0;
    loop
        invariant
            n == v@.len(),
            p <= n,
            whole_keyword_from(v@, 0, seqs_of(kws@)) == whole_keyword_from(
                v@,
                p as int,
                seqs_of(kws@),
            ),
        decreases n - p,
    {
        if is_whole_keyword_at(v, p, kws) {
            return Some(p);
        }
        if p == n {
            return None;
        }
        p += 1;
    }
}

/// A title or artist field taken apart.
#[derive(Debug, PartialEq, Eq)]
pub struct TrackFeat {
    /// The text without its feature clause, trimmed.
    pub title: String,
    /// The featured artists, in the order of the text, duplicates kept.
    pub featured_artists: Vec<String>,
    /// The text as it was given.
    pub original_title: String,
}

/// What a `TrackFeat` holds, as sequences of characters.
pub struct TrackFeatView {
    pub title: Seq<char>,
    pub featured_artists: Seq<Seq<char>>,
    pub original_title: Seq<char>,
}

impl View for TrackFeat {
    type V = TrackFeatView;

    open spec fn view(&self) -> TrackFeatView {
        TrackFeatView {
            title: self.title@,
            featured_artists: strs_of(self.featured_artists@),
            original_title: self.original_title@,
        }
    }
}

/// The title that is left when the bracket from index `i` to index `j` is
/// cut out: what stands before it and what stands behind it, joined by one
/// space, and trimmed.
pub open spec fn without_bracket(s: Seq<char>, i: int, j: int) -> Seq<char> {
    trim_spec(
        trim_end_spec(s.subrange(0, i)) + seq![' '] + trim_start_spec(
            s.subrange(j + 1, s.len() as int),
        ),
    )
}

/// The parts of `s`.  A bracketed feature clause comes first: it is cut out
/// of the title and gives the artists.  Without one, the first keyword that
/// stands as a whole word ends the title, and the artists follow it.
/// Without that either, the title is `s` and nobody is featured.
pub open spec fn extract_feat_spec(s: Seq<char>, kws: Seq<Seq<char>>) -> TrackFeatView {
    match bracketed_feat_from(s, 0, kws) {
        Some((i, j)) => TrackFeatView {
            title: without_bracket(s, i, j),
            featured_artists: split_artists_spec(remove_keyword_spec(s.subrange(i + 1, j), kws)),
            original_title: s,
        },
        None => match whole_keyword_from(s, 0, kws) {
            Some(p) => TrackFeatView {
                title: trim_end_spec(s.subrange(0, p)),
                featured_artists: split_artists_spec(
                    remove_keyword_spec(s.subrange(p, s.len() as int), kws),
                ),
                original_title: s,
            },
            None => TrackFeatView {
                title: s,
                featured_artists: Seq::empty(),
                original_title: s,
            },
        },
    }
}

/// Takes a sequence of characters apart into its title and its featured
/// artists.
pub fn extract_feat_chars(v: &Vec<char>) -> (r: (Vec<char>, Vec<Vec<char>>))
    ensures
        r.0@ == extract_feat_spec(v@, keywords()).title,
        seqs_of(r.1@) == extract_feat_spec(v@, keywords()).featured_artists,
{
    let n: usize = v.len();
    let kws: Vec<Vec<char>> = keyword_list();
    match find_bracketed_feat(v, &kws) {
        Some((i, j)) => {
            let content: Vec<char> = slice_of(v, i + 1, j);
            let artist_part: Vec<char> = remove_keyword_from_content(&content, &kws);
            let artists: Vec<Vec<char>> = split_artists(&artist_part);
            let head: Vec<char> = slice_of(v, 0, i);
            let tail: Vec<char> = slice_of(v, j + 1, n);
            let mut joined: Vec<char> = trim_end(&head);
            let mut after: Vec<char> = trim_start(&tail);
            let ghost before = joined@;
            let ghost behind = after@;
            joined.push(' ');
            joined.append(&mut after);
            proof {
                assert(joined@ =~= before + seq![' '] + behind);
            }
            (trim(&joined), artists)
        },
        None => match find_non_bracketed_feat(v, &kws) {
            Some(p) => {
                let tail: Vec<char> = slice_of(v, p, n);
                let artist_part: Vec<char> = remove_keyword_from_content(&tail, &kws);
                let artists: Vec<Vec<char>> = split_artists(&artist_part);
                let head: Vec<char> = slice_of(v, 0, p);
                (trim_end(&head), artists)
            },
            None => {
                let whole: Vec<char> = slice_of(v, 0, n);
                let nobody: Vec<Vec<char>> = Vec::new();
                proof {
                    assert(whole@ =~= v@);
                    assert(seqs_of(nobody@) =~= Seq::<Seq<char>>::empty());
                }
                (whole, nobody)
            },
        },
    }
}

/// Takes a title or an artist field apart into its base text and its
/// featured artists.  Text without a feature clause comes back whole.
pub fn extract_feat(title: &str) -> (r: TrackFeat)
    ensures
        r@ == extract_feat_spec(title@, keywords()),
        r@.original_title == title@,
{
    let v: Vec<char> = chars_of(title);
    let (base, artists) = extract_feat_chars(&v);
    TrackFeat {
        title: string_of(&base),
        featured_artists: strings_of(&artists),
        original_title: string_of(&v),
    }
}

/// Some keyword of `kws` stands somewhere in `s`, letter case aside.
pub open spec fn has_keyword(s: Seq<char>, kws: Seq<Seq<char>>) -> bool {
    exists|p: int| any_keyword_at(s, p, kws)
}

/// The parts of a text in which no feature clause is found: the text
/// itself, and nobody featured.
pub open spec fn whole_title(s: Seq<char>) -> TrackFeatView {
    TrackFeatView { title: s, featured_artists: Seq::empty(), original_title: s }
}

/// A keyword that stands in a piece of a text stands in the text.
pub proof fn lemma_keyword_in_piece(s: Seq<char>, a: int, b: int, p: int, kws: Seq<Seq<char>>)
    requires
        0 <= a <= b <= s.len(),
        any_keyword_at(s.subrange(a, b), p, kws),
    ensures
        any_keyword_at(s, a + p, kws),
{
    let t = s.subrange(a, b);
    let k = choose|k: int| 0 <= k < kws.len() && keyword_at(t, p, #[trigger] kws[k]);
    let kw = kws[k];
    assert forall|i: int| 0 <= i < kw.len() implies matches_lower(
        #[trigger] s[a + p + i],
        kw[i],
    ) by {
        assert(t[p + i] == s[a + p + i]);
    }
    assert(keyword_at(s, a + p, kws[k]));
}

/// Text in which no feature clause is found, bracketed or not, comes back
/// whole.
pub proof fn lemma_extract_feat_without_clause(s: Seq<char>, kws: Seq<Seq<char>>)
    requires
        bracketed_feat_from(s, 0, kws) is None,
        whole_keyword_from(s, 0, kws) is None,
    ensures
        extract_feat_spec(s, kws) == whole_title(s),
{
}

/// Text in which no keyword stands anywhere comes back whole: the title is
/// the text, and nobody is featured.
pub proof fn lemma_extract_feat_without_keyword(s: Seq<char>, kws: Seq<Seq<char>>)
    requires
        !has_keyword(s, kws),
    ensures
        extract_feat_spec(s, kws) == whole_title(s),
{
    lemma_bracketed_feat_from(s, 0, kws);
    match bracketed_feat_from(s, 0, kws) {
        Some((i, j)) => {
            let content = s.subrange(i + 1, j);
            let (a, b) = lemma_trim_piece(content);
            assert(content.subrange(a, b) =~= s.subrange(i + 1 + a, i + 1 + b));
            lemma_keyword_in_piece(s, i + 1 + a, i + 1 + b, 0, kws);
            assert(any_keyword_at(s, i + 1 + a + 0, kws));
            assert(false);
        },
        None => {},
    }
    lemma_whole_keyword_from(s, 0, kws);
    match whole_keyword_from(s, 0, kws) {
        Some(p) => {
            let k = choose|k: int|
                0 <= k < kws.len() && keyword_at(s, p, #[trigger] kws[k]) && word_ends_at(
                    s,
                    p + kws[k].len(),
                );
            assert(any_keyword_at(s, p, kws));
            assert(false);
        },
        None => {},
    }
}

} // verus!
