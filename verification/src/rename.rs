//! The destination of a track: the rendered path template made safe for
//! file systems, placed under the output directory, with the extension of
//! the file; and the steps of the move.

use crate::taglib::Track;
use crate::text::{
    chars_of, join, join_spec, lemma_trim_piece, seqs_of, slice_of, split, split_spec, string_of,
    trim, trim_spec,
};
use vstd::prelude::*;

verus! {

/// The most characters that a part of a path may have, the extension
/// aside.
pub const MAX_PATH_PART_LEN: usize = 64;

/// A character that some file system refuses in a name.
pub open spec fn is_illegal(c: char) -> bool {
    c == '<' || c == '>' || c == ':' || c == '"' || c == '|' || c == '?' || c == '*'
}

/// Cuts `v` down to its first `max_chars` characters.  A shorter `v` stays
/// as it is.
pub fn safe_truncate(v: &mut Vec<char>, max_chars: usize)
    ensures
        final(v)@ == old(v)@.take(
            if max_chars <= old(v)@.len() {
                max_chars as int
            } else {
                old(v)@.len() as int
            },
        ),
{
    if max_chars < v.len() {
        v.truncate(max_chars);
        proof {
            assert(v@ =~= old(v)@.take(max_chars as int));
        }
    } else {
        proof {
            assert(v@ =~= old(v)@.take(old(v)@.len() as int));
        }
    }
}

/// `s` with an underscore in place of every illegal character.
pub open spec fn replace_illegal_spec(s: Seq<char>) -> Seq<char> {
    Seq::new(
        s.len(),
        |i: int|
            if is_illegal(s[i]) {
                '_'
            } else {
                s[i]
            },
    )
}

/// Puts an underscore in place of every illegal character.
pub fn replace_illegal(v: &Vec<char>) -> (r: Vec<char>)
    ensures
        r@ == replace_illegal_spec(v@),
{
    let mut r: Vec<char> = Vec::new();
    let mut i: usize = 0;
    while i < v.len()
        invariant
            i <= v@.len(),
            r@.len() == i,
            forall|j: int| 0 <= j < i ==> r@[j] == replace_illegal_spec(v@)[j],
        decreases v@.len() - i,
    {
        let c: char = v[i];
        if c == '<' || c == '>' || c == ':' || c == '"' || c == '|' || c == '?' || c == '*' {
            r.push('_');
        } else {
            r.push(c);
        }
        i += 1;
    }
    proof {
        assert(r@ =~= replace_illegal_spec(v@));
    }
    r
}

/// `s` with every run of full stops turned into one.
pub open spec fn collapse_dots_spec(s: Seq<char>) -> Seq<char>
    decreases s.len(),
{
    if s.len() == 0 {
        s
    } else {
        let init = collapse_dots_spec(s.drop_last());
        if s.last() == '.' && s.len() >= 2 && s[s.len() - 2] == '.' {
            init
        } else {
            init.push(s.last())
        }
    }
}

/// Turns every run of full stops into one.
pub fn collapse_dots(v: &Vec<char>) -> (r: Vec<char>)
    ensures
        r@ == collapse_dots_spec(v@),
{
    let mut r: Vec<char> = Vec::new();
    let mut i: usize = 0;
    proof {
        assert(v@.take(0) =~= Seq::<char>::empty());
    }
    while i < v.len()
        invariant
            i <= v@.len(),
            r@ == collapse_dots_spec(v@.take(i as int)),
        decreases v@.len() - i,
    {
        let c: char = v[i];
        proof {
            let t = v@.take(i + 1);
            assert(t.drop_last() =~= v@.take(i as int));
            assert(t.last() == c);
            if i > 0 {
                assert(t[t.len() - 2] == v@[i - 1]);
            }
        }
        if c == '.' && i > 0 && v[i - 1] == '.' {
        } else {
            r.push(c);
        }
        i += 1;
    }
    proof {
        assert(v@.take(i as int) =~= v@);
    }
    r
}

/// `s` without the full stops at its start.
pub open spec fn strip_leading_dots_spec(s: Seq<char>) -> Seq<char>
    decreases s.len(),
{
    if s.len() > 0 && s[0] == '.' {
        strip_leading_dots_spec(s.drop_first())
    } else {
        s
    }
}

/// `s` without the full stops at its end.
pub open spec fn strip_trailing_dots_spec(s: Seq<char>) -> Seq<char>
    decreases s.len(),
{
    if s.len() > 0 && s.last() == '.' {
        strip_trailing_dots_spec(s.drop_last())
    } else {
        s
    }
}

/// `s` without the full stops at either end.
pub open spec fn strip_dots_spec(s: Seq<char>) -> Seq<char> {
    strip_trailing_dots_spec(strip_leading_dots_spec(s))
}

/// The leading full stops can be cut off in one piece.
pub proof fn lemma_strip_leading_dots_at(s: Seq<char>, k: int)
    requires
        0 <= k <= s.len(),
        forall|i: int| 0 <= i < k ==> #[trigger] s[i] == '.',
        k < s.len() ==> s[k] != '.',
    ensures
        strip_leading_dots_spec(s) == s.subrange(k, s.len() as int),
    decreases k,
{
    if k == 0 {
        assert(s.subrange(0, s.len() as int) =~= s);
    } else {
        let t = s.drop_first();
        assert(s[0] == '.');
        assert forall|i: int| 0 <= i < k - 1 implies #[trigger] t[i] == '.' by {
            assert(t[i] == s[i + 1]);
        }
        lemma_strip_leading_dots_at(t, k - 1);
        assert(t.subrange(k - 1, t.len() as int) =~= s.subrange(k, s.len() as int));
    }
}

/// The trailing full stops can be cut off in one piece.
pub proof fn lemma_strip_trailing_dots_at(s: Seq<char>, k: int)
    requires
        0 <= k <= s.len(),
        forall|i: int| k <= i < s.len() ==> #[trigger] s[i] == '.',
        k > 0 ==> s[k - 1] != '.',
    ensures
        strip_trailing_dots_spec(s) == s.subrange(0, k),
    decreases s.len() - k,
{
    if k == s.len() {
        assert(s.subrange(0, k) =~= s);
    } else {
        let t = s.drop_last();
        assert(s.last() == '.');
        assert forall|i: int| k <= i < t.len() implies #[trigger] t[i] == '.' by {
            assert(t[i] == s[i]);
        }
        lemma_strip_trailing_dots_at(t, k);
        assert(t.subrange(0, k) =~= s.subrange(0, k));
    }
}

/// Takes the full stops off both ends.
pub fn strip_dots(v: &Vec<char>) -> (r: Vec<char>)
    ensures
        r@ == strip_dots_spec(v@),
        exists|a: int, b: int| 0 <= a <= b <= v@.len() && r@ == v@.subrange(a, b),
        r@.len() > 0 ==> r@[0] != '.' && r@.last() != '.',
{
    let n: usize = v.len();
    let mut lo: usize = 0;
    while lo < n && v[lo] == '.'
        invariant
            n == v@.len(),
            lo <= n,
            forall|i: int| 0 <= i < lo ==> #[trigger] v@[i] == '.',
        decreases n - lo,
    {
        lo += 1;
    }
    let mut hi: usize = n;
    while hi > lo && v[hi - 1] == '.'
        invariant
            n == v@.len(),
            lo <= hi <= n,
            forall|i: int| hi <= i < n ==> #[trigger] v@[i] == '.',
        decreases hi - lo,
    {
        hi -= 1;
    }
    proof {
        lemma_strip_leading_dots_at(v@, lo as int);
        let t = v@.subrange(lo as int, n as int);
        assert forall|i: int| hi - lo <= i < t.len() implies #[trigger] t[i] == '.' by {
            assert(t[i] == v@[lo + i]);
        }
        if hi > lo {
            assert(t[hi - lo - 1] == v@[hi - 1]);
        }
        lemma_strip_trailing_dots_at(t, hi - lo);
        assert(t.subrange(0, hi - lo) =~= v@.subrange(lo as int, hi as int));
    }
    let r = slice_of(v, lo, hi);
    proof {
        if r@.len() > 0 {
            assert(r@[0] == v@[lo as int]);
            assert(r@.last() == v@[hi - 1]);
        }
    }
    r
}

/// No character of `s` is illegal.
pub open spec fn all_legal(s: Seq<char>) -> bool {
    forall|i: int| 0 <= i < s.len() ==> !is_illegal(#[trigger] s[i])
}

/// Collapsing full stops makes a text no longer and brings no illegal
/// character into it.
pub proof fn lemma_collapse_dots_keeps(s: Seq<char>)
    ensures
        collapse_dots_spec(s).len() <= s.len(),
        all_legal(s) ==> all_legal(collapse_dots_spec(s)),
    decreases s.len(),
{
    if s.len() > 0 {
        let t = s.drop_last();
        lemma_collapse_dots_keeps(t);
        if all_legal(s) {
            assert forall|i: int| 0 <= i < t.len() implies !is_illegal(#[trigger] t[i]) by {
                assert(t[i] == s[i]);
            }
            assert(!is_illegal(s[s.len() - 1]));
        }
    }
}

/// Stripping full stops leaves a piece of the text that neither starts nor
/// ends with a full stop.
pub proof fn lemma_strip_dots_piece(s: Seq<char>) -> (r: (int, int))
    ensures
        0 <= r.0 <= r.1 <= s.len(),
        strip_dots_spec(s) == s.subrange(r.0, r.1),
        r.0 < r.1 ==> s[r.0] != '.' && s[r.1 - 1] != '.',
{
    let a = leading_dots(s, 0);
    lemma_strip_leading_dots_at(s, a);
    let t = s.subrange(a, s.len() as int);
    let b = trailing_dots(t, t.len() as int);
    lemma_strip_trailing_dots_at(t, b);
    assert(t.subrange(0, b) =~= s.subrange(a, a + b));
    if b > 0 {
        assert(t[b - 1] == s[a + b - 1]);
        assert(t[0] == s[a]);
    }
    (a, a + b)
}

/// The index of the first character at or after `k` that is no full stop.
pub proof fn leading_dots(s: Seq<char>, k: int) -> (r: int)
    requires
        0 <= k <= s.len(),
        forall|i: int| 0 <= i < k ==> #[trigger] s[i] == '.',
    ensures
        k <= r <= s.len(),
        forall|i: int| 0 <= i < r ==> #[trigger] s[i] == '.',
        r < s.len() ==> s[r] != '.',
    decreases s.len() - k,
{
    if k < s.len() && s[k] == '.' {
        leading_dots(s, k + 1)
    } else {
        k
    }
}

/// The index behind the last character before `k` that is no full stop.
pub proof fn trailing_dots(s: Seq<char>, k: int) -> (r: int)
    requires
        0 <= k <= s.len(),
        forall|i: int| k <= i < s.len() ==> #[trigger] s[i] == '.',
    ensures
        0 <= r <= k,
        forall|i: int| r <= i < s.len() ==> #[trigger] s[i] == '.',
        r > 0 ==> s[r - 1] != '.',
    decreases k,
{
    if k > 0 && s[k - 1] == '.' {
        trailing_dots(s, k - 1)
    } else {
        k
    }
}

/// The first `max` characters of `s`, or all of `s` if it has fewer.
pub open spec fn truncate_spec(s: Seq<char>, max: int) -> Seq<char> {
    if 0 <= max <= s.len() {
        s.take(max)
    } else {
        s
    }
}

/// One part of a path made safe: cut to `MAX_PATH_PART_LEN` characters,
/// illegal characters replaced by underscores, trimmed, runs of full stops
/// collapsed, the full stops at both ends stripped; and an underscore where
/// nothing is left.
pub open spec fn sanitize_segment_spec(seg: Seq<char>) -> Seq<char> {
    let cut = truncate_spec(seg, MAX_PATH_PART_LEN as int);
    let stripped = strip_dots_spec(collapse_dots_spec(trim_spec(replace_illegal_spec(cut))));
    if stripped.len() == 0 {
        seq!['_']
    } else {
        stripped
    }
}

/// A safe part of a path has at least one and at most `MAX_PATH_PART_LEN`
/// characters, none of them illegal, and neither starts nor ends with a
/// full stop.
pub proof fn lemma_sanitize_segment_safe(seg: Seq<char>)
    ensures
        1 <= sanitize_segment_spec(seg).len() <= MAX_PATH_PART_LEN,
        all_legal(sanitize_segment_spec(seg)),
        sanitize_segment_spec(seg)[0] != '.',
        sanitize_segment_spec(seg).last() != '.',
{
    let cut = truncate_spec(seg, MAX_PATH_PART_LEN as int);
    let legal = replace_illegal_spec(cut);
    assert(all_legal(legal));
    let (a, b) = lemma_trim_piece(legal);
    let trimmed = trim_spec(legal);
    assert(all_legal(trimmed)) by {
        assert forall|i: int| 0 <= i < trimmed.len() implies !is_illegal(#[trigger] trimmed[i]) by {
            assert(trimmed[i] == legal[a + i]);
        }
    }
    lemma_collapse_dots_keeps(trimmed);
    let collapsed = collapse_dots_spec(trimmed);
    let (c, d) = lemma_strip_dots_piece(collapsed);
    let stripped = strip_dots_spec(collapsed);
    assert(all_legal(stripped)) by {
        assert forall|i: int| 0 <= i < stripped.len() implies !is_illegal(
            #[trigger] stripped[i],
        ) by {
            assert(stripped[i] == collapsed[c + i]);
        }
    }
    if stripped.len() > 0 {
        assert(stripped[0] == collapsed[c]);
        assert(stripped.last() == collapsed[d - 1]);
    }
}

/// Makes one part of a path safe.
pub fn sanitize_segment(seg: &Vec<char>) -> (r: Vec<char>)
    ensures
        r@ == sanitize_segment_spec(seg@),
        1 <= r@.len() <= MAX_PATH_PART_LEN,
        all_legal(r@),
        r@[0] != '.',
        r@.last() != '.',
{
    let mut cut: Vec<char> = slice_of(seg, 0, seg.len());
    proof {
        assert(cut@ =~= seg@);
    }
    safe_truncate(&mut cut, MAX_PATH_PART_LEN);
    let legal: Vec<char> = replace_illegal(&cut);
    let trimmed: Vec<char> = trim(&legal);
    let collapsed: Vec<char> = collapse_dots(&trimmed);
    let stripped: Vec<char> = strip_dots(&collapsed);
    proof {
        lemma_sanitize_segment_safe(seg@);
    }
    if stripped.len() == 0 {
        let placeholder: Vec<char> = vec!['_'];
        proof {
            assert(placeholder@ =~= seq!['_']);
        }
        placeholder
    } else {
        stripped
    }
}

/// The path starts at the root of the file system.
pub open spec fn has_root(path: Seq<char>) -> bool {
    path.len() > 0 && path[0] == '/'
}

/// Of the pieces between the separators of a path, those that count as
/// parts of it: not the empty ones, and not a single full stop unless it is
/// the first piece.
pub open spec fn kept_segments_spec(pieces: Seq<Seq<char>>) -> Seq<Seq<char>>
    decreases pieces.len(),
{
    if pieces.len() == 0 {
        Seq::empty()
    } else {
        let init = kept_segments_spec(pieces.drop_last());
        let piece = pieces.last();
        if piece.len() > 0 && (piece != seq!['.'] || pieces.len() == 1) {
            init.push(piece)
        } else {
            init
        }
    }
}

/// The parts of a path, the root aside.  Repeated and trailing separators
/// make no part, and neither does a single full stop behind the start.
pub open spec fn path_segments_spec(path: Seq<char>) -> Seq<Seq<char>> {
    kept_segments_spec(split_spec(path, seq!['/']))
}

/// Every part made safe.
pub open spec fn sanitized_spec(segments: Seq<Seq<char>>) -> Seq<Seq<char>> {
    Seq::new(segments.len(), |i: int| sanitize_segment_spec(segments[i]))
}

/// The rendered template as a safe path: its parts made safe one by one
/// and joined by separators again, behind the root if it had one.
pub open spec fn normalise_dirs_spec(path_part: Seq<char>) -> Seq<char> {
    let joined = join_spec(sanitized_spec(path_segments_spec(path_part)), seq!['/']);
    if has_root(path_part) {
        seq!['/'] + joined
    } else {
        joined
    }
}

/// Joining parts without illegal characters, with a separator without
/// any, brings none in.
pub proof fn lemma_join_legal(parts: Seq<Seq<char>>, sep: Seq<char>)
    requires
        forall|i: int| 0 <= i < parts.len() ==> all_legal(#[trigger] parts[i]),
        all_legal(sep),
    ensures
        all_legal(join_spec(parts, sep)),
    decreases parts.len(),
{
    if parts.len() == 1 {
        assert(all_legal(parts[0]));
    } else if parts.len() > 1 {
        let init = parts.drop_last();
        assert forall|i: int| 0 <= i < init.len() implies all_legal(#[trigger] init[i]) by {
            assert(init[i] == parts[i]);
        }
        lemma_join_legal(init, sep);
        let head = join_spec(init, sep);
        let last = parts[parts.len() - 1];
        assert(all_legal(last));
        let whole = head + sep + last;
        assert forall|i: int| 0 <= i < whole.len() implies !is_illegal(#[trigger] whole[i]) by {
            if i < head.len() {
                assert(whole[i] == head[i]);
            } else if i < head.len() + sep.len() {
                assert(whole[i] == sep[i - head.len()]);
            } else {
                assert(whole[i] == last[i - head.len() - sep.len()]);
            }
        }
    }
}

/// A safe path holds no illegal character, whatever was rendered.
pub proof fn lemma_normalise_dirs_legal(path_part: Seq<char>)
    ensures
        all_legal(normalise_dirs_spec(path_part)),
{
    let safe = sanitized_spec(path_segments_spec(path_part));
    assert forall|i: int| 0 <= i < safe.len() implies all_legal(#[trigger] safe[i]) by {
        lemma_sanitize_segment_safe(path_segments_spec(path_part)[i]);
    }
    let slash = seq!['/'];
    assert(all_legal(slash)) by {
        assert forall|i: int| 0 <= i < slash.len() implies !is_illegal(#[trigger] slash[i]) by {
            assert(slash[i] == '/');
        }
    }
    lemma_join_legal(safe, slash);
    let joined = join_spec(safe, slash);
    if has_root(path_part) {
        let rooted = slash + joined;
        assert forall|i: int| 0 <= i < rooted.len() implies !is_illegal(#[trigger] rooted[i]) by {
            if i >= 1 {
                assert(rooted[i] == joined[i - 1]);
            }
        }
    }
}

/// The parts of a path.
pub fn path_segments(path: &Vec<char>) -> (r: Vec<Vec<char>>)
    ensures
        seqs_of(r@) == path_segments_spec(path@),
{
    let slash: Vec<char> = vec!['/'];
    proof {
        assert(slash@ =~= seq!['/']);
    }
    let pieces: Vec<Vec<char>> = split(path, &slash);
    let ghost all = seqs_of(pieces@);
    let mut r: Vec<Vec<char>> = Vec::new();
    let mut i: usize = 0;
    proof {
        assert(all.take(0) =~= Seq::<Seq<char>>::empty());
        assert(seqs_of(r@) =~= Seq::<Seq<char>>::empty());
    }
    while i < pieces.len()
        invariant
            i <= pieces@.len(),
            all == seqs_of(pieces@),
            seqs_of(r@) == kept_segments_spec(all.take(i as int)),
        decreases pieces@.len() - i,
    {
        let piece: &Vec<char> = &pieces[i];
        let ghost before = seqs_of(r@);
        proof {
            let t = all.take(i + 1);
            assert(t.drop_last() =~= all.take(i as int));
            assert(t.last() == piece@);
        }
        let single_dot: bool = piece.len() == 1 && piece[0] == '.';
        proof {
            if single_dot {
                assert(piece@ =~= seq!['.']);
            } else if piece@.len() == 1 {
                assert(piece@[0] != '.');
                assert(seq!['.'][0] == '.');
            }
        }
        if piece.len() > 0 && (!single_dot || i == 0) {
            let copy: Vec<char> = slice_of(piece, 0, piece.len());
            proof {
                assert(copy@ =~= piece@);
            }
            r.push(copy);
            proof {
                assert(seqs_of(r@) =~= before.push(piece@));
            }
        }
        i += 1;
    }
    proof {
        assert(all.take(i as int) =~= all);
    }
    r
}

/// Makes the rendered template a safe path.
pub fn normalise_dirs(path_part: &str) -> (r: String)
    ensures
        r@ == normalise_dirs_spec(path_part@),
        all_legal(r@),
{
    proof {
        lemma_normalise_dirs_legal(path_part@);
    }
    let v: Vec<char> = chars_of(path_part);
    let segments: Vec<Vec<char>> = path_segments(&v);
    let mut safe: Vec<Vec<char>> = Vec::new();
    let mut i: usize = 0;
    while i < segments.len()
        invariant
            i <= segments@.len(),
            safe@.len() == i,
            forall|j: int|
                0 <= j < i ==> (#[trigger] safe@[j])@ == sanitize_segment_spec(segments@[j]@),
        decreases segments@.len() - i,
    {
        safe.push(sanitize_segment(&segments[i]));
        i += 1;
    }
    proof {
        assert(seqs_of(safe@) =~= sanitized_spec(seqs_of(segments@)));
    }
    let slash: Vec<char> = vec!['/'];
    proof {
        assert(slash@ =~= seq!['/']);
    }
    let mut joined: Vec<char> = join(&safe, &slash);
    if v.len() > 0 && v[0] == '/' {
        let mut rooted: Vec<char> = vec!['/'];
        let ghost tail = joined@;
        rooted.append(&mut joined);
        proof {
            assert(rooted@ =~= seq!['/'] + tail);
        }
        string_of(&rooted)
    } else {
        string_of(&joined)
    }
}

/// `partial` placed under `root`: a rooted `partial` stands for itself;
/// otherwise it follows `root`, with a separator between the two unless
/// `root` is empty or brings one.
pub open spec fn join_under_spec(root: Seq<char>, partial: Seq<char>) -> Seq<char> {
    if has_root(partial) || root.len() == 0 {
        partial
    } else if root.last() == '/' {
        root + partial
    } else {
        root + seq!['/'] + partial
    }
}

/// Places `partial` under `root`.
pub fn join_under(root: &Vec<char>, partial: &Vec<char>) -> (r: Vec<char>)
    ensures
        r@ == join_under_spec(root@, partial@),
{
    let mut tail: Vec<char> = slice_of(partial, 0, partial.len());
    proof {
        assert(tail@ =~= partial@);
    }
    if (partial.len() > 0 && partial[0] == '/') || root.len() == 0 {
        return tail;
    }
    let mut r: Vec<char> = slice_of(root, 0, root.len());
    proof {
        assert(r@ =~= root@);
    }
    if root[root.len() - 1] != '/' {
        r.push('/');
    }
    r.append(&mut tail);
    proof {
        if root@.last() == '/' {
            assert(r@ =~= root@ + partial@);
        } else {
            assert(r@ =~= root@ + seq!['/'] + partial@);
        }
    }
    r
}

/// `path` with a full stop and `ext` written behind it, whatever `path`
/// ends in.
pub open spec fn add_extension_spec(path: Seq<char>, ext: Seq<char>) -> Seq<char> {
    path + seq!['.'] + ext
}

/// Writes a full stop and `ext` behind `path`.
pub fn add_extension(path: Vec<char>, ext: &Vec<char>) -> (r: Vec<char>)
    ensures
        r@ == add_extension_spec(path@, ext@),
{
    let mut r: Vec<char> = path;
    let mut tail: Vec<char> = slice_of(ext, 0, ext.len());
    r.push('.');
    r.append(&mut tail);
    proof {
        assert(r@ =~= path@ + seq!['.'] + ext@);
    }
    r
}

/// The index of the last `c` in `s`.
pub open spec fn last_index_of(s: Seq<char>, c: char) -> Option<int>
    decreases s.len(),
{
    if s.len() == 0 {
        None
    } else if s.last() == c {
        Some(s.len() - 1)
    } else {
        last_index_of(s.drop_last(), c)
    }
}

/// The name of the file that a path leads to: its last part, unless that
/// is `.` or `..`.
pub open spec fn file_name_spec(path: Seq<char>) -> Option<Seq<char>> {
    let segments = path_segments_spec(path);
    if segments.len() == 0 || segments.last() == seq!['.'] || segments.last() == seq!['.', '.'] {
        None
    } else {
        Some(segments.last())
    }
}

/// The extension of the file that a path leads to: what follows the last
/// full stop of the file's name, if the name has one behind its first
/// character.
pub open spec fn extension_of_spec(path: Seq<char>) -> Option<Seq<char>> {
    match file_name_spec(path) {
        None => None,
        Some(name) => match last_index_of(name, '.') {
            None => None,
            Some(d) => if 0 < d < name.len() {
                Some(name.skip(d + 1))
            } else {
                None
            },
        },
    }
}

/// Finds the last `c` in `v`.
pub fn find_last(v: &Vec<char>, c: char) -> (r: Option<usize>)
    ensures
        match r {
            Some(d) => last_index_of(v@, c) == Some(d as int) && d < v@.len(),
            None => last_index_of(v@, c) is None,
        },
{
    let mut k: usize = v.len();
    proof {
        assert(v@.take(k as int) =~= v@);
    }
    while k > 0
        invariant
            k <= v@.len(),
            last_index_of(v@, c) == last_index_of(v@.take(k as int), c),
        decreases k,
    {
        proof {
            assert(v@.take(k as int).drop_last() =~= v@.take(k - 1));
            assert(v@.take(k as int).last() == v@[k - 1]);
        }
        if v[k - 1] == c {
            return Some(k - 1);
        }
        k -= 1;
    }
    None
}

/// The extension of the file that a path leads to.
pub fn extension_of(path: &Vec<char>) -> (r: Option<Vec<char>>)
    ensures
        match r {
            Some(ext) => extension_of_spec(path@) == Some(ext@),
            None => extension_of_spec(path@) is None,
        },
{
    let segments: Vec<Vec<char>> = path_segments(path);
    if segments.len() == 0 {
        return None;
    }
    let name: &Vec<char> = &segments[segments.len() - 1];
    proof {
        assert(seqs_of(segments@).last() == name@);
    }
    let one: bool = name.len() == 1 && name[0] == '.';
    let two: bool = name.len() == 2 && name[0] == '.' && name[1] == '.';
    proof {
        if one {
            assert(name@ =~= seq!['.']);
        } else if name@.len() == 1 {
            assert(seq!['.'][0] == '.');
        }
        if two {
            assert(name@ =~= seq!['.', '.']);
        } else if name@.len() == 2 {
            assert(seq!['.', '.'][0] == '.' && seq!['.', '.'][1] == '.');
        }
    }
    if one || two {
        return None;
    }
    match find_last(name, '.') {
        None => None,
        Some(d) => {
            if d == 0 {
                None
            } else {
                let ext: Vec<char> = slice_of(name, d + 1, name.len());
                proof {
                    assert(ext@ =~= name@.skip(d + 1));
                }
                Some(ext)
            }
        },
    }
}

/// Two paths lead to the same place as far as their text shows: both are
/// rooted or neither is, and they have the same parts.
pub open spec fn same_path_spec(a: Seq<char>, b: Seq<char>) -> bool {
    has_root(a) == has_root(b) && path_segments_spec(a) == path_segments_spec(b)
}

/// Tells whether two sequences of characters are the same.
pub fn same_chars(a: &Vec<char>, b: &Vec<char>) -> (r: bool)
    ensures
        r == (a@ == b@),
{
    if a.len() != b.len() {
        return false;
    }
    let mut i: usize = 0;
    while i < a.len()
        invariant
            a@.len() == b@.len(),
            i <= a@.len(),
            forall|j: int| 0 <= j < i ==> a@[j] == b@[j],
        decreases a@.len() - i,
    {
        if a[i] != b[i] {
            return false;
        }
        i += 1;
    }
    proof {
        assert(a@ =~= b@);
    }
    true
}

/// Tells whether two paths have the same root and parts.
pub fn same_path(a: &Vec<char>, b: &Vec<char>) -> (r: bool)
    ensures
        r == same_path_spec(a@, b@),
{
    let a_rooted: bool = a.len() > 0 && a[0] == '/';
    let b_rooted: bool = b.len() > 0 && b[0] == '/';
    if a_rooted != b_rooted {
        return false;
    }
    let sa: Vec<Vec<char>> = path_segments(a);
    let sb: Vec<Vec<char>> = path_segments(b);
    if sa.len() != sb.len() {
        proof {
            assert(seqs_of(sa@).len() != seqs_of(sb@).len());
        }
        return false;
    }
    let mut i: usize = 0;
    while i < sa.len()
        invariant
            sa@.len() == sb@.len(),
            i <= sa@.len(),
            has_root(a@) == has_root(b@),
            seqs_of(sa@) == path_segments_spec(a@),
            seqs_of(sb@) == path_segments_spec(b@),
            forall|j: int| 0 <= j < i ==> (#[trigger] sa@[j])@ == sb@[j]@,
        decreases sa@.len() - i,
    {
        if !same_chars(&sa[i], &sb[i]) {
            proof {
                assert(seqs_of(sa@)[i as int] == sa@[i as int]@);
                assert(seqs_of(sb@)[i as int] == sb@[i as int]@);
                assert(seqs_of(sa@)[i as int] != seqs_of(sb@)[i as int]);
            }
            return false;
        }
        i += 1;
    }
    proof {
        assert(seqs_of(sa@) =~= seqs_of(sb@));
    }
    true
}

/// Where a track belongs: the rendered template as a safe path under the
/// output directory, with the extension behind it.
pub open spec fn destination_spec(
    rendered: Seq<char>,
    output_path: Seq<char>,
    ext: Seq<char>,
) -> Seq<char> {
    add_extension_spec(join_under_spec(output_path, normalise_dirs_spec(rendered)), ext)
}

/// Why no destination could be computed.
#[derive(Debug, Clone, Copy, PartialEq, Eq)]
pub enum RenameError {
    /// The file's name has no extension.
    MissingExtension,
}

impl RenameError {
    /// The error in words.
    pub fn message(&self) -> (r: String)
        ensures
            r@ == "ext required in walkbuilder, but missing"@,
    {
        "ext required in walkbuilder, but missing".to_owned()
    }
}

/// A track that is not where it belongs.
#[derive(Debug, Clone, PartialEq, Eq)]
pub struct Rename {
    /// Where the track belongs.
    pub new_path: String,
    /// The file has to be moved there; not so in a dry run.
    pub move_file: bool,
}

/// Decides where a track belongs, given its rendered path template.  A
/// file without an extension is refused.  A track that is already where it
/// belongs gives `None`: nothing is to be done for it.  Any other track
/// gives its destination, and is to be moved there unless this is a dry
/// run.
pub fn rename_track(
    track: &Track,
    rendered: &str,
    output_path: &str,
    dry_run: bool,
) -> (r: Result<Option<Rename>, RenameError>)
    ensures
        match extension_of_spec(track.path@) {
            None => r == Err::<Option<Rename>, RenameError>(RenameError::MissingExtension),
            Some(ext) => {
                let dest = destination_spec(rendered@, output_path@, ext);
                if same_path_spec(dest, track.path@) {
                    r == Ok::<Option<Rename>, RenameError>(None)
                } else {
                    &&& r is Ok
                    &&& r.unwrap() is Some
                    &&& r.unwrap().unwrap().new_path@ == dest
                    &&& r.unwrap().unwrap().move_file == !dry_run
                }
            },
        },
{
    let current: Vec<char> = chars_of(track.path.as_str());
    let partial: Vec<char> = chars_of(normalise_dirs(rendered).as_str());
    let root: Vec<char> = chars_of(output_path);
    let placed: Vec<char> = join_under(&root, &partial);
    match extension_of(&current) {
        None => Err(RenameError::MissingExtension),
        Some(ext) => {
            let new_path: Vec<char> = add_extension(placed, &ext);
            if same_path(&new_path, &current) {
                Ok(None)
            } else {
                Ok(Some(Rename { new_path: string_of(&new_path), move_file: !dry_run }))
            }
        },
    }
}

/// A step of moving a file to its destination.  Each but the last two is
/// an operation on the file system that the caller performs.
#[derive(Debug, Clone, Copy, PartialEq, Eq, Structural)]
pub enum MoveStep {
    /// Create the directories above the destination that are missing.
    CreateParentDirs,
    /// Rename the file to its destination.
    Rename,
    /// Copy the file to its destination.
    Copy,
    /// Delete the file at its old place.
    RemoveSource,
    /// The file is at its destination.
    Done,
    /// The move failed at the step before; the file system is left as that
    /// step left it.
    Failed,
}

/// How a step ended.
#[derive(Debug, Clone, Copy, PartialEq, Eq, Structural)]
pub enum StepOutcome {
    Succeeded,
    /// The operation failed, with this error code of the operating system
    /// if it gave one.
    FailedWith(Option<i32>),
}

/// The step that follows `step` after `outcome`.  Directories come first,
/// then the rename.  A rename that fails because source and destination
/// lie on different devices, which the operating system reports as
/// `cross_device_code`, is made up for by a copy and then the removal of
/// the source.  Any other failure ends the move.
pub open spec fn next_move_step_spec(
    step: MoveStep,
    outcome: StepOutcome,
    cross_device_code: i32,
) -> MoveStep {
    match (step, outcome) {
        (MoveStep::CreateParentDirs, StepOutcome::Succeeded) => MoveStep::Rename,
        (MoveStep::Rename, StepOutcome::Succeeded) => MoveStep::Done,
        (MoveStep::Rename, StepOutcome::FailedWith(Some(code))) => if code == cross_device_code {
            MoveStep::Copy
        } else {
            MoveStep::Failed
        },
        (MoveStep::Copy, StepOutcome::Succeeded) => MoveStep::RemoveSource,
        (MoveStep::RemoveSource, StepOutcome::Succeeded) => MoveStep::Done,
        (MoveStep::Done, _) => MoveStep::Done,
        _ => MoveStep::Failed,
    }
}

/// The step that a move starts with.
pub fn first_move_step() -> (step: MoveStep)
    ensures
        step == MoveStep::CreateParentDirs,
{
    MoveStep::CreateParentDirs
}

/// Decides the step that follows `step` after `outcome`.
pub fn next_move_step(step: MoveStep, outcome: StepOutcome, cross_device_code: i32) -> (next:
    MoveStep)
    ensures
        next == next_move_step_spec(step, outcome, cross_device_code),
{
    match step {
        MoveStep::CreateParentDirs => match outcome {
            StepOutcome::Succeeded => MoveStep::Rename,
            StepOutcome::FailedWith(_) => MoveStep::Failed,
        },
        MoveStep::Rename => match outcome {
            StepOutcome::Succeeded => MoveStep::Done,
            StepOutcome::FailedWith(Some(code)) => if code == cross_device_code {
                MoveStep::Copy
            } else {
                MoveStep::Failed
            },
            StepOutcome::FailedWith(None) => MoveStep::Failed,
        },
        MoveStep::Copy => match outcome {
            StepOutcome::Succeeded => MoveStep::RemoveSource,
            StepOutcome::FailedWith(_) => MoveStep::Failed,
        },
        MoveStep::RemoveSource => match outcome {
            StepOutcome::Succeeded => MoveStep::Done,
            StepOutcome::FailedWith(_) => MoveStep::Failed,
        },
        MoveStep::Done => MoveStep::Done,
        MoveStep::Failed => MoveStep::Failed,
    }
}

/// The steps that a move goes through when the operations end as
/// `outcomes` say, one outcome for each step in turn, from the first step
/// on.
pub open spec fn move_steps_spec(outcomes: Seq<StepOutcome>, cross_device_code: i32) -> Seq<
    MoveStep,
>
    decreases outcomes.len(),
{
    if outcomes.len() == 0 {
        seq![MoveStep::CreateParentDirs]
    } else {
        let before = move_steps_spec(outcomes.drop_last(), cross_device_code);
        before.push(next_move_step_spec(before.last(), outcomes.last(), cross_device_code))
    }
}

/// Across devices a move is a copy followed by the removal of the source:
/// when the directories are there and the rename fails with the code for
/// different devices, the steps that follow are the copy, the removal, and
/// the end; and nothing is removed unless the copy went well.
pub proof fn lemma_cross_device_fallback(cross_device_code: i32, copied: StepOutcome)
    ensures
        move_steps_spec(
            seq![
                StepOutcome::Succeeded,
                StepOutcome::FailedWith(Some(cross_device_code)),
                StepOutcome::Succeeded,
                StepOutcome::Succeeded,
            ],
            cross_device_code,
        ) == seq![
            MoveStep::CreateParentDirs,
            MoveStep::Rename,
            MoveStep::Copy,
            MoveStep::RemoveSource,
            MoveStep::Done,
        ],
        copied != StepOutcome::Succeeded ==> next_move_step_spec(
            MoveStep::Copy,
            copied,
            cross_device_code,
        ) == MoveStep::Failed,
{
    let o1 = seq![StepOutcome::Succeeded];
    let o2 = seq![StepOutcome::Succeeded, StepOutcome::FailedWith(Some(cross_device_code))];
    let o3 = seq![
        StepOutcome::Succeeded,
        StepOutcome::FailedWith(Some(cross_device_code)),
        StepOutcome::Succeeded,
    ];
    let o4 = seq![
        StepOutcome::Succeeded,
        StepOutcome::FailedWith(Some(cross_device_code)),
        StepOutcome::Succeeded,
        StepOutcome::Succeeded,
    ];
    let c = cross_device_code;
    assert(o1.drop_last() =~= Seq::<StepOutcome>::empty());
    assert(o2.drop_last() =~= o1);
    assert(o3.drop_last() =~= o2);
    assert(o4.drop_last() =~= o3);
    reveal_with_fuel(move_steps_spec, 5);
    assert(move_steps_spec(Seq::<StepOutcome>::empty(), c) =~= seq![MoveStep::CreateParentDirs]);
    assert(move_steps_spec(o1, c) =~= seq![MoveStep::CreateParentDirs, MoveStep::Rename]);
    assert(move_steps_spec(o2, c) =~= seq![
        MoveStep::CreateParentDirs,
        MoveStep::Rename,
        MoveStep::Copy,
    ]);
    assert(move_steps_spec(o3, c) =~= seq![
        MoveStep::CreateParentDirs,
        MoveStep::Rename,
        MoveStep::Copy,
        MoveStep::RemoveSource,
    ]);
    assert(move_steps_spec(o4, c) =~= seq![
        MoveStep::CreateParentDirs,
        MoveStep::Rename,
        MoveStep::Copy,
        MoveStep::RemoveSource,
        MoveStep::Done,
    ]);
}

} // verus!
