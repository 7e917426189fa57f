//! The fixers: cosmetic clean-up of a field, the canonical title with its
//! featured artists, and the run over a track's tag.

use crate::feat::{
    extract_feat, extract_feat_spec, has_keyword, keywords, lemma_extract_feat_without_keyword,
    whole_title, TrackFeat, TrackFeatView,
};
use crate::taglib::{Tag, TagView, Track};
use crate::text::{
    chars_of, contains, contains_spec, is_white_space, join_spec, lemma_trim_fixed,
    lemma_trim_piece, or_empty, str_opt, string_of, string_opt, strs_of, trim,
    trim_spec,
};
use vstd::prelude::*;
use vstd::string::*;

verus! {

/// A space or a tab.
pub open spec fn is_blank(c: char) -> bool {
    c == ' ' || c == '\t'
}

/// `s` with every run of spaces and tabs turned into one space.
pub open spec fn collapse_blanks_spec(s: Seq<char>) -> Seq<char>
    decreases s.len(),
{
    if s.len() == 0 {
        s
    } else {
        let init = collapse_blanks_spec(s.drop_last());
        if !is_blank(s.last()) {
            init.push(s.last())
        } else if s.len() >= 2 && is_blank(s[s.len() - 2]) {
            init
        } else {
            init.push(' ')
        }
    }
}

/// Turns every run of spaces and tabs into one space.
pub fn collapse_blanks(v: &Vec<char>) -> (r: Vec<char>)
    ensures
        r@ == collapse_blanks_spec(v@),
{
    let mut r: Vec<char> = Vec::new();
    let mut i: usize = 0;
    proof {
        assert(v@.take(0) =~= Seq::<char>::empty());
    }
    while i < v.len()
        invariant
            i <= v@.len(),
            r@ == collapse_blanks_spec(v@.take(i as int)),
        decreases v@.len() - i,
    {
        let c: char = v[i];
        proof {
            let t = v@.take(i + 1);
            assert(t.drop_last() =~= v@.take(i as int));
            assert(t.last() == c);
            if i > 0 {
                assert(t[t.len() - 2] == v@[i - 1]);
            }
        }
        if !(c == ' ' || c == '\t') {
            r.push(c);
        } else if i > 0 && (v[i - 1] == ' ' || v[i - 1] == '\t') {
        } else {
            r.push(' ');
        }
        i += 1;
    }
    proof {
        assert(v@.take(i as int) =~= v@);
    }
    r
}

/// `s` with `to` in place of every `from`.
pub open spec fn replace_char_spec(s: Seq<char>, from: char, to: Seq<char>) -> Seq<char>
    decreases s.len(),
{
    if s.len() == 0 {
        s
    } else if s.last() == from {
        replace_char_spec(s.drop_last(), from, to) + to
    } else {
        replace_char_spec(s.drop_last(), from, to).push(s.last())
    }
}

/// Calls `cow_replace` of the `cow_utils` crate with a character as the
/// pattern: the text comes back with `to` in place of every occurrence of
/// `from`, and the same otherwise.
#[verifier::external_body]
pub(crate) fn replace_char(s: &str, from: char, to: &str) -> (r: String)
    ensures
        r@ == replace_char_spec(s@, from, to@),
{
    cow_utils::CowUtils::cow_replace(s, from, to).into_owned()
}

/// Square brackets become round ones, the ellipsis three full stops, and
/// the curly quotation marks straight ones.
pub open spec fn plain_punctuation_spec(s: Seq<char>) -> Seq<char> {
    let s1 = replace_char_spec(s, '[', seq!['(']);
    let s2 = replace_char_spec(s1, ']', seq![')']);
    let s3 = replace_char_spec(s2, '\u{2026}', seq!['.', '.', '.']);
    let s4 = replace_char_spec(s3, '\u{201C}', seq!['"']);
    let s5 = replace_char_spec(s4, '\u{201D}', seq!['"']);
    let s6 = replace_char_spec(s5, '\u{2018}', seq!['\'']);
    replace_char_spec(s6, '\u{2019}', seq!['\''])
}

/// A field in its plain form: runs of spaces and tabs are one space, the
/// white space at both ends is gone, and the punctuation is plain.
pub open spec fn normalise_spec(s: Seq<char>) -> Seq<char> {
    plain_punctuation_spec(trim_spec(collapse_blanks_spec(s)))
}

/// Puts the punctuation of `s` into its plain form.
pub fn plain_punctuation(s: &str) -> (r: String)
    ensures
        r@ == plain_punctuation_spec(s@),
{
    proof {
        reveal_strlit("(");
        reveal_strlit(")");
        reveal_strlit("...");
        reveal_strlit("\"");
        reveal_strlit("'");
        assert("("@ =~= seq!['(']);
        assert(")"@ =~= seq![')']);
        assert("..."@ =~= seq!['.', '.', '.']);
        assert("\""@ =~= seq!['"']);
        assert("'"@ =~= seq!['\'']);
    }
    let s1: String = replace_char(s, '[', "(");
    let s2: String = replace_char(s1.as_str(), ']', ")");
    let s3: String = replace_char(s2.as_str(), '\u{2026}', "...");
    let s4: String = replace_char(s3.as_str(), '\u{201C}', "\"");
    let s5: String = replace_char(s4.as_str(), '\u{201D}', "\"");
    let s6: String = replace_char(s5.as_str(), '\u{2018}', "'");
    replace_char(s6.as_str(), '\u{2019}', "'")
}

/// Puts a field into its plain form.
pub fn normalise_field(field: &str) -> (r: String)
    ensures
        r@ == normalise_spec(field@),
{
    let v: Vec<char> = chars_of(field);
    let collapsed: Vec<char> = collapse_blanks(&v);
    let trimmed: String = string_of(&trim(&collapsed));
    plain_punctuation(trimmed.as_str())
}

/// Every space or tab in `s` is a space that no other follows.
pub open spec fn no_blank_runs(s: Seq<char>) -> bool {
    forall|i: int|
        0 <= i < s.len() && is_blank(#[trigger] s[i]) ==> s[i] == ' ' && (i + 1 < s.len()
            ==> !is_blank(s[i + 1]))
}

/// `x` does not occur in `s`.
pub open spec fn lacks(s: Seq<char>, x: char) -> bool {
    forall|i: int| 0 <= i < s.len() ==> #[trigger] s[i] != x
}

/// `s` neither starts nor ends with white space.
pub open spec fn tight(s: Seq<char>) -> bool {
    s.len() > 0 ==> !is_white_space(s[0]) && !is_white_space(s.last())
}

/// What is left after collapsing has no run of spaces and tabs, is empty
/// only if the text was, and ends as the text did, but for a tab, which is
/// a space now.
pub proof fn lemma_collapse_blanks_result(s: Seq<char>)
    ensures
        no_blank_runs(collapse_blanks_spec(s)),
        collapse_blanks_spec(s).len() <= s.len(),
        s.len() > 0 ==> collapse_blanks_spec(s).len() > 0,
        s.len() > 0 && !is_blank(s.last()) ==> collapse_blanks_spec(s).last() == s.last(),
        s.len() > 0 && is_blank(s.last()) ==> collapse_blanks_spec(s).last() == ' ',
    decreases s.len(),
{
    if s.len() > 0 {
        let t = s.drop_last();
        lemma_collapse_blanks_result(t);
        let init = collapse_blanks_spec(t);
        let r = collapse_blanks_spec(s);
        if t.len() > 0 {
            assert(t.last() == s[s.len() - 2]);
        }
        if !is_blank(s.last()) {
            assert forall|i: int| 0 <= i < r.len() && is_blank(#[trigger] r[i]) implies r[i] == ' '
                && (i + 1 < r.len() ==> !is_blank(r[i + 1])) by {
                if i < init.len() {
                    assert(r[i] == init[i]);
                    if i + 1 < init.len() {
                        assert(r[i + 1] == init[i + 1]);
                    }
                }
            }
        } else if s.len() >= 2 && is_blank(s[s.len() - 2]) {
        } else {
            assert forall|i: int| 0 <= i < r.len() && is_blank(#[trigger] r[i]) implies r[i] == ' '
                && (i + 1 < r.len() ==> !is_blank(r[i + 1])) by {
                if i < init.len() {
                    assert(r[i] == init[i]);
                    if i + 1 < init.len() {
                        assert(r[i + 1] == init[i + 1]);
                    } else {
                        assert(init.last() == init[i]);
                    }
                }
            }
        }
    }
}

/// Text without a run of spaces and tabs is its own collapsed form.
pub proof fn lemma_collapse_blanks_fixed(s: Seq<char>)
    requires
        no_blank_runs(s),
    ensures
        collapse_blanks_spec(s) == s,
    decreases s.len(),
{
    if s.len() > 0 {
        let t = s.drop_last();
        assert forall|i: int| 0 <= i < t.len() && is_blank(#[trigger] t[i]) implies t[i] == ' '
            && (i + 1 < t.len() ==> !is_blank(t[i + 1])) by {
            assert(t[i] == s[i]);
            if i + 1 < t.len() {
                assert(t[i + 1] == s[i + 1]);
            }
        }
        lemma_collapse_blanks_fixed(t);
        if is_blank(s.last()) {
            assert(s[s.len() - 1] == ' ');
            if s.len() >= 2 && is_blank(s[s.len() - 2]) {
                assert(!is_blank(s[s.len() - 2 + 1]));
            }
        }
        assert(t.push(s.last()) =~= s);
    }
}

/// A piece of a text without runs of spaces and tabs has none either.
pub proof fn lemma_piece_no_blank_runs(s: Seq<char>, a: int, b: int)
    requires
        0 <= a <= b <= s.len(),
        no_blank_runs(s),
    ensures
        no_blank_runs(s.subrange(a, b)),
{
    let t = s.subrange(a, b);
    assert forall|i: int| 0 <= i < t.len() && is_blank(#[trigger] t[i]) implies t[i] == ' ' && (i
        + 1 < t.len() ==> !is_blank(t[i + 1])) by {
        assert(t[i] == s[a + i]);
        if i + 1 < t.len() {
            assert(t[i + 1] == s[a + i + 1]);
        }
    }
}

/// Putting text without white space in place of a character keeps a text
/// free of runs of spaces and tabs, and keeps white space away from its
/// ends.
pub proof fn lemma_replace_char_keeps(s: Seq<char>, from: char, to: Seq<char>)
    requires
        to.len() > 0,
        forall|j: int| 0 <= j < to.len() ==> !is_white_space(#[trigger] to[j]),
    ensures
        s.len() > 0 <==> replace_char_spec(s, from, to).len() > 0,
        s.len() > 0 ==> {
            let r = replace_char_spec(s, from, to);
            &&& (r[0] == s[0] || r[0] == to[0])
            &&& (r.last() == s.last() || r.last() == to.last())
        },
        no_blank_runs(s) ==> no_blank_runs(replace_char_spec(s, from, to)),
        tight(s) ==> tight(replace_char_spec(s, from, to)),
    decreases s.len(),
{
    if s.len() > 0 {
        let t = s.drop_last();
        let c = s.last();
        lemma_replace_char_keeps(t, from, to);
        let rt = replace_char_spec(t, from, to);
        let r = replace_char_spec(s, from, to);
        assert(!is_white_space(to[0]) && !is_white_space(to.last()));
        if t.len() > 0 {
            assert(t[0] == s[0]);
            assert(r[0] == rt[0]);
        }
        if no_blank_runs(s) {
            assert forall|i: int| 0 <= i < t.len() && is_blank(#[trigger] t[i]) implies t[i]
                == ' ' && (i + 1 < t.len() ==> !is_blank(t[i + 1])) by {
                assert(t[i] == s[i]);
                if i + 1 < t.len() {
                    assert(t[i + 1] == s[i + 1]);
                }
            }
            assert forall|i: int| 0 <= i < r.len() && is_blank(#[trigger] r[i]) implies r[i]
                == ' ' && (i + 1 < r.len() ==> !is_blank(r[i + 1])) by {
                if i < rt.len() {
                    assert(r[i] == rt[i]);
                    if i + 1 < rt.len() {
                        assert(r[i + 1] == rt[i + 1]);
                    } else if c == from {
                        assert(r[i + 1] == to[0]);
                    } else {
                        assert(r[i + 1] == c);
                        assert(rt.last() == rt[i]);
                        assert(rt.last() == t.last());
                        assert(t.last() == s[s.len() - 2]);
                        assert(is_blank(s[s.len() - 2]));
                        assert(!is_blank(s[s.len() - 2 + 1]));
                    }
                } else if c == from {
                    assert(r[i] == to[i - rt.len()]);
                } else {
                    assert(r[i] == s[s.len() - 1]);
                }
            }
        }
    }
}

/// A character that is neither in the text nor in what is put in, or that
/// is the one replaced, is not in the result.
pub proof fn lemma_replace_char_lacks(s: Seq<char>, from: char, to: Seq<char>, x: char)
    requires
        lacks(to, x),
        lacks(s, x) || x == from,
    ensures
        lacks(replace_char_spec(s, from, to), x),
    decreases s.len(),
{
    if s.len() > 0 {
        let t = s.drop_last();
        assert forall|i: int| 0 <= i < t.len() implies t[i] == s[i] by {}
        if lacks(s, x) {
            assert forall|i: int| 0 <= i < t.len() implies #[trigger] t[i] != x by {
                assert(t[i] == s[i]);
            }
        }
        lemma_replace_char_lacks(t, from, to, x);
        let rt = replace_char_spec(t, from, to);
        let r = replace_char_spec(s, from, to);
        assert forall|i: int| 0 <= i < r.len() implies #[trigger] r[i] != x by {
            if i < rt.len() {
                assert(r[i] == rt[i]);
            } else if s.last() == from {
                assert(r[i] == to[i - rt.len()]);
            } else {
                assert(r[i] == s[s.len() - 1]);
            }
        }
    }
}

/// Replacing a character that does not occur changes nothing.
pub proof fn lemma_replace_char_absent(s: Seq<char>, from: char, to: Seq<char>)
    requires
        lacks(s, from),
    ensures
        replace_char_spec(s, from, to) == s,
    decreases s.len(),
{
    if s.len() > 0 {
        let t = s.drop_last();
        assert forall|i: int| 0 <= i < t.len() implies #[trigger] t[i] != from by {
            assert(t[i] == s[i]);
        }
        lemma_replace_char_absent(t, from, to);
        assert(s[s.len() - 1] != from);
        assert(t.push(s.last()) =~= s);
    }
}

/// The punctuation is plain: none of the characters that
/// `plain_punctuation_spec` replaces occurs.
pub open spec fn is_plain(s: Seq<char>) -> bool {
    &&& lacks(s, '[')
    &&& lacks(s, ']')
    &&& lacks(s, '\u{2026}')
    &&& lacks(s, '\u{201C}')
    &&& lacks(s, '\u{201D}')
    &&& lacks(s, '\u{2018}')
    &&& lacks(s, '\u{2019}')
}

/// Plain punctuation comes out plain, and the step keeps a text free of
/// runs of spaces and tabs and keeps white space away from its ends.
pub proof fn lemma_plain_punctuation_result(s: Seq<char>)
    ensures
        is_plain(plain_punctuation_spec(s)),
        no_blank_runs(s) ==> no_blank_runs(plain_punctuation_spec(s)),
        tight(s) ==> tight(plain_punctuation_spec(s)),
{
    let open = seq!['('];
    let close = seq![')'];
    let dots = seq!['.', '.', '.'];
    let double = seq!['"'];
    let single = seq!['\''];
    let s1 = replace_char_spec(s, '[', open);
    let s2 = replace_char_spec(s1, ']', close);
    let s3 = replace_char_spec(s2, '\u{2026}', dots);
    let s4 = replace_char_spec(s3, '\u{201C}', double);
    let s5 = replace_char_spec(s4, '\u{201D}', double);
    let s6 = replace_char_spec(s5, '\u{2018}', single);
    let s7 = replace_char_spec(s6, '\u{2019}', single);
    lemma_replace_char_keeps(s, '[', open);
    lemma_replace_char_keeps(s1, ']', close);
    lemma_replace_char_keeps(s2, '\u{2026}', dots);
    lemma_replace_char_keeps(s3, '\u{201C}', double);
    lemma_replace_char_keeps(s4, '\u{201D}', double);
    lemma_replace_char_keeps(s5, '\u{2018}', single);
    lemma_replace_char_keeps(s6, '\u{2019}', single);

    lemma_replace_char_lacks(s, '[', open, '[');
    lemma_replace_char_lacks(s1, ']', close, '[');
    lemma_replace_char_lacks(s2, '\u{2026}', dots, '[');
    lemma_replace_char_lacks(s3, '\u{201C}', double, '[');
    lemma_replace_char_lacks(s4, '\u{201D}', double, '[');
    lemma_replace_char_lacks(s5, '\u{2018}', single, '[');
    lemma_replace_char_lacks(s6, '\u{2019}', single, '[');

    lemma_replace_char_lacks(s1, ']', close, ']');
    lemma_replace_char_lacks(s2, '\u{2026}', dots, ']');
    lemma_replace_char_lacks(s3, '\u{201C}', double, ']');
    lemma_replace_char_lacks(s4, '\u{201D}', double, ']');
    lemma_replace_char_lacks(s5, '\u{2018}', single, ']');
    lemma_replace_char_lacks(s6, '\u{2019}', single, ']');

    lemma_replace_char_lacks(s2, '\u{2026}', dots, '\u{2026}');
    lemma_replace_char_lacks(s3, '\u{201C}', double, '\u{2026}');
    lemma_replace_char_lacks(s4, '\u{201D}', double, '\u{2026}');
    lemma_replace_char_lacks(s5, '\u{2018}', single, '\u{2026}');
    lemma_replace_char_lacks(s6, '\u{2019}', single, '\u{2026}');

    lemma_replace_char_lacks(s3, '\u{201C}', double, '\u{201C}');
    lemma_replace_char_lacks(s4, '\u{201D}', double, '\u{201C}');
    lemma_replace_char_lacks(s5, '\u{2018}', single, '\u{201C}');
    lemma_replace_char_lacks(s6, '\u{2019}', single, '\u{201C}');

    lemma_replace_char_lacks(s4, '\u{201D}', double, '\u{201D}');
    lemma_replace_char_lacks(s5, '\u{2018}', single, '\u{201D}');
    lemma_replace_char_lacks(s6, '\u{2019}', single, '\u{201D}');

    lemma_replace_char_lacks(s5, '\u{2018}', single, '\u{2018}');
    lemma_replace_char_lacks(s6, '\u{2019}', single, '\u{2018}');

    lemma_replace_char_lacks(s6, '\u{2019}', single, '\u{2019}');
}

/// Text with plain punctuation is left as it is.
pub proof fn lemma_plain_punctuation_fixed(s: Seq<char>)
    requires
        is_plain(s),
    ensures
        plain_punctuation_spec(s) == s,
{
    lemma_replace_char_absent(s, '[', seq!['(']);
    lemma_replace_char_absent(s, ']', seq![')']);
    lemma_replace_char_absent(s, '\u{2026}', seq!['.', '.', '.']);
    lemma_replace_char_absent(s, '\u{201C}', seq!['"']);
    lemma_replace_char_absent(s, '\u{201D}', seq!['"']);
    lemma_replace_char_absent(s, '\u{2018}', seq!['\'']);
    lemma_replace_char_absent(s, '\u{2019}', seq!['\'']);
}

/// A field in plain form has no run of spaces and tabs, no white space at
/// its ends, and plain punctuation.
pub proof fn lemma_normalise_result(s: Seq<char>)
    ensures
        no_blank_runs(normalise_spec(s)),
        tight(normalise_spec(s)),
        is_plain(normalise_spec(s)),
{
    let collapsed = collapse_blanks_spec(s);
    lemma_collapse_blanks_result(s);
    let (a, b) = lemma_trim_piece(collapsed);
    lemma_piece_no_blank_runs(collapsed, a, b);
    let trimmed = trim_spec(collapsed);
    if trimmed.len() > 0 {
        assert(trimmed[0] == collapsed[a]);
        assert(trimmed.last() == collapsed[b - 1]);
    }
    lemma_plain_punctuation_result(trimmed);
}

/// Text that has no run of spaces and tabs, no white space at its ends and
/// plain punctuation is its own plain form.
pub proof fn lemma_normalise_fixed(s: Seq<char>)
    requires
        no_blank_runs(s),
        tight(s),
        is_plain(s),
    ensures
        normalise_spec(s) == s,
{
    lemma_collapse_blanks_fixed(s);
    lemma_trim_fixed(s);
    lemma_plain_punctuation_fixed(s);
}

/// Putting a field into plain form twice gives what doing it once gives.
pub proof fn lemma_normalise_idempotent(s: Seq<char>)
    ensures
        normalise_spec(normalise_spec(s)) == normalise_spec(s),
{
    lemma_normalise_result(s);
    lemma_normalise_fixed(normalise_spec(s));
}

/// The artists as a list in words: one name alone, two joined by "and",
/// three or more by commas with ", and" before the last.
pub open spec fn feat_string_spec(artists: Seq<Seq<char>>) -> Seq<char> {
    if artists.len() == 0 {
        Seq::empty()
    } else if artists.len() == 1 {
        artists[0]
    } else if artists.len() == 2 {
        artists[0] + " and "@ + artists[1]
    } else {
        join_spec(artists.drop_last(), ", "@) + ", and "@ + artists.last()
    }
}

/// Writes the artists as a list in words.
pub fn make_feat_string(featured_artists: &Vec<String>) -> (r: String)
    ensures
        r@ == feat_string_spec(strs_of(featured_artists@)),
{
    let n: usize = featured_artists.len();
    let ghost names = strs_of(featured_artists@);
    let mut out: String = String::new();
    if n == 0 {
        return out;
    }
    out.append(featured_artists[0].as_str());
    proof {
        assert(out@ =~= names[0]);
    }
    if n == 1 {
        return out;
    }
    if n == 2 {
        out.append(" and ");
        out.append(featured_artists[1].as_str());
        return out;
    }
    let mut i: usize = 1;
    proof {
        assert(names.drop_last().take(1) =~= seq![names[0]]);
    }
    while i < n - 1
        invariant
            n == featured_artists@.len(),
            n >= 3,
            names == strs_of(featured_artists@),
            1 <= i <= n - 1,
            out@ == join_spec(names.drop_last().take(i as int), ", "@),
        decreases n - i,
    {
        out.append(", ");
        out.append(featured_artists[i].as_str());
        proof {
            let head = names.drop_last();
            assert(head.take(i + 1).drop_last() =~= head.take(i as int));
            assert(head.take(i + 1).last() == names[i as int]);
        }
        i += 1;
    }
    proof {
        assert(names.drop_last().take(i as int) =~= names.drop_last());
    }
    out.append(", and ");
    out.append(featured_artists[n - 1].as_str());
    out
}

/// The canonical title: the base title, then all featured artists in one
/// clause, those named in the title before those named in the artist field,
/// and the whole in plain form.
pub open spec fn make_title_spec(title: TrackFeatView, artist: TrackFeatView) -> Seq<char> {
    let all = title.featured_artists + artist.featured_artists;
    if all.len() > 0 {
        normalise_spec(title.title + " (feat. "@ + feat_string_spec(all) + ")"@)
    } else {
        normalise_spec(title.title)
    }
}

/// The names of `a`, then those of `b`.
pub fn concat_names(a: &Vec<String>, b: &Vec<String>) -> (r: Vec<String>)
    ensures
        strs_of(r@) == strs_of(a@) + strs_of(b@),
{
    let mut r: Vec<String> = Vec::new();
    let mut i: usize = 0;
    while i < a.len()
        invariant
            i <= a@.len(),
            r@.len() == i,
            forall|j: int| 0 <= j < i ==> (#[trigger] r@[j])@ == a@[j]@,
        decreases a@.len() - i,
    {
        r.push(a[i].clone());
        i += 1;
    }
    let mut k: usize = 0;
    while k < b.len()
        invariant
            k <= b@.len(),
            r@.len() == a@.len() + k,
            forall|j: int| 0 <= j < a@.len() ==> (#[trigger] r@[j])@ == a@[j]@,
            forall|j: int| 0 <= j < k ==> (#[trigger] r@[a@.len() + j])@ == b@[j]@,
        decreases b@.len() - k,
    {
        r.push(b[k].clone());
        k += 1;
    }
    proof {
        assert forall|j: int| a@.len() <= j < r@.len() implies (#[trigger] r@[j])@ == b@[j
            - a@.len()]@ by {
            assert(r@[a@.len() + (j - a@.len())]@ == b@[j - a@.len()]@);
        }
        assert(strs_of(r@) =~= strs_of(a@) + strs_of(b@));
    }
    r
}

/// Builds the canonical title from what the title and the artist field
/// held.
pub fn make_title(title: &TrackFeat, artist: TrackFeat) -> (r: String)
    ensures
        r@ == make_title_spec(title@, artist@),
{
    let featured_artists: Vec<String> = concat_names(
        &title.featured_artists,
        &artist.featured_artists,
    );
    let mut new_title: String = title.title.clone();
    if featured_artists.len() > 0 {
        let names: String = make_feat_string(&featured_artists);
        new_title.append(" (feat. ");
        new_title.append(names.as_str());
        new_title.append(")");
    }
    normalise_field(new_title.as_str())
}

/// The artist field without its feature clause, where it has one: the plain
/// form of the field is taken apart, and its base is the new value if it
/// differs from that plain form.
pub open spec fn fix_artist_spec(old_artist: Option<Seq<char>>) -> Option<Seq<char>> {
    let field = normalise_spec(or_empty(old_artist));
    let base = extract_feat_spec(field, keywords()).title;
    if base == field {
        None
    } else {
        Some(base)
    }
}

/// The plain form of the album, where the album differs from it.
pub open spec fn fix_album_spec(old_album: Option<Seq<char>>) -> Option<Seq<char>> {
    match old_album {
        None => None,
        Some(album) => if normalise_spec(album) == album {
            None
        } else {
            Some(normalise_spec(album))
        },
    }
}

/// The canonical title, where the title differs from it.
pub open spec fn fix_title_spec(
    old_title: Option<Seq<char>>,
    old_artist: Option<Seq<char>>,
) -> Option<Seq<char>> {
    match old_title {
        None => None,
        Some(title) => {
            let new_title = make_title_spec(
                extract_feat_spec(title, keywords()),
                extract_feat_spec(or_empty(old_artist), keywords()),
            );
            if new_title == title {
                None
            } else {
                Some(new_title)
            }
        },
    }
}

/// The string, or the empty one where there is none.
pub fn text_or_empty<'a>(o: Option<&'a str>) -> (s: &'a str)
    ensures
        s@ == or_empty(str_opt(o)),
{
    match o {
        Some(s) => s,
        None => {
            proof {
                reveal_strlit("");
                assert(""@ =~= Seq::<char>::empty());
            }
            ""
        },
    }
}

/// The new artist, if the artist field has to change.
pub fn fix_artist(old_artist: Option<&str>) -> (r: Option<String>)
    ensures
        string_opt(r) == fix_artist_spec(str_opt(old_artist)),
{
    let field: String = normalise_field(text_or_empty(old_artist));
    let artist: TrackFeat = extract_feat(field.as_str());
    if artist.title == artist.original_title {
        None
    } else {
        Some(artist.title)
    }
}

/// The new album, if the album field has to change.
pub fn fix_album(old_album: Option<&str>) -> (r: Option<String>)
    ensures
        string_opt(r) == fix_album_spec(str_opt(old_album)),
{
    match old_album {
        None => None,
        Some(album) => {
            let new_album: String = normalise_field(album);
            let old: String = album.to_owned();
            if new_album == old {
                None
            } else {
                Some(new_album)
            }
        },
    }
}

/// The new title, if the title field has to change.
pub fn fix_title(old_title: Option<&str>, old_artist: Option<&str>) -> (r: Option<String>)
    ensures
        string_opt(r) == fix_title_spec(str_opt(old_title), str_opt(old_artist)),
{
    match old_title {
        None => None,
        Some(title) => {
            let title_feat: TrackFeat = extract_feat(title);
            let artist_feat: TrackFeat = extract_feat(text_or_empty(old_artist));
            let new_title: String = make_title(&title_feat, artist_feat);
            if new_title == title_feat.original_title {
                None
            } else {
                Some(new_title)
            }
        },
    }
}

/// Why a track was not fixed.
#[derive(Debug, Clone, Copy, PartialEq, Eq)]
pub enum FixError {
    /// A comment of the tag forbids any change.
    Blacklisted,
}

impl FixError {
    /// The error in words.
    pub fn message(&self) -> (r: String)
        ensures
            r@ == "Comment contains _NO_MACK"@,
    {
        "Comment contains _NO_MACK".to_owned()
    }
}

/// What a run of the fixers did to a tag.
#[derive(Debug, Clone, Copy, PartialEq, Eq)]
pub struct FixOutcome {
    /// A field of the tag has a new value.
    pub changed: bool,
    /// The tag has to be written to its file.
    pub persist: bool,
}

/// The text that, standing in a comment, forbids any change to the tag.
pub open spec fn blacklist_marker() -> Seq<char> {
    "_NO_MACK"@
}

/// One of the comments holds the marker.
pub open spec fn is_blacklisted_spec(comments: Seq<Seq<char>>) -> bool {
    exists|i: int|
        0 <= i < comments.len() && contains_spec(#[trigger] comments[i], blacklist_marker())
}

/// The new value of a field: the fix where there is one, the old value
/// where there is none.
pub open spec fn applied(fix: Option<Seq<char>>, old_value: Option<Seq<char>>) -> Option<
    Seq<char>,
> {
    match fix {
        Some(_) => fix,
        None => old_value,
    }
}

/// The tag after the fixers: each of artist, title and album has its fix
/// applied, all three computed from the tag as it was.
pub open spec fn fixed_tag(tag: TagView) -> TagView {
    TagView {
        title: applied(fix_title_spec(tag.title, tag.artist), tag.title),
        artist: applied(fix_artist_spec(tag.artist), tag.artist),
        album: applied(fix_album_spec(tag.album), tag.album),
        comments: tag.comments,
        track: tag.track,
    }
}

/// Some fixer has a new value for its field.
pub open spec fn needs_fixing(tag: TagView) -> bool {
    ||| fix_title_spec(tag.title, tag.artist) is Some
    ||| fix_artist_spec(tag.artist) is Some
    ||| fix_album_spec(tag.album) is Some
}

/// Refuses a tag with the marker in one of its comments.
pub fn fixer_is_blacklisted(tag: &Tag) -> (r: Result<(), FixError>)
    ensures
        r is Err <==> is_blacklisted_spec(tag@.comments),
{
    let marker: Vec<char> = chars_of("_NO_MACK");
    let mut i: usize = 0;
    while i < tag.comments.len()
        invariant
            i <= tag.comments@.len(),
            marker@ == blacklist_marker(),
            forall|j: int|
                0 <= j < i ==> !contains_spec(
                    #[trigger] strs_of(tag.comments@)[j],
                    blacklist_marker(),
                ),
        decreases tag.comments@.len() - i,
    {
        let text: Vec<char> = chars_of(tag.comments[i].as_str());
        if contains(&text, &marker) {
            assert(contains_spec(strs_of(tag.comments@)[i as int], blacklist_marker()));
            return Err(FixError::Blacklisted);
        }
        i += 1;
    }
    Ok(())
}

/// Runs the fixers over a track's tag.  A tag with the marker in a comment
/// is refused and left as it is.  Otherwise the new artist, title and album
/// are computed from the tag as it stands and then set; the outcome tells
/// whether any field changed, and whether the tag has to be written, which
/// is the case after a change unless this is a dry run.
pub fn run_fixers(track: &mut Track, dry_run: bool) -> (r: Result<FixOutcome, FixError>)
    ensures
        final(track).path == old(track).path,
        is_blacklisted_spec(old(track).tag@.comments) ==> r == Err::<FixOutcome, FixError>(
            FixError::Blacklisted,
        ) && *final(track) == *old(track),
        !is_blacklisted_spec(old(track).tag@.comments) ==> r == Ok::<FixOutcome, FixError>(
            FixOutcome {
                changed: needs_fixing(old(track).tag@),
                persist: needs_fixing(old(track).tag@) && !dry_run,
            },
        ) && final(track).tag@ == fixed_tag(old(track).tag@),
{
    match fixer_is_blacklisted(&track.tag) {
        Err(e) => {
            return Err(e);
        },
        Ok(_) => {},
    }
    let new_title: Option<String> = fix_title(track.tag.title(), track.tag.artist());
    let new_artist: Option<String> = fix_artist(track.tag.artist());
    let new_album: Option<String> = fix_album(track.tag.album());
    let mut changed: bool = false;

    if let Some(artist) = new_artist {
        changed = true;
        track.tag.set_artist(artist.as_str());
    }
    if let Some(title) = new_title {
        changed = true;
        track.tag.set_title(title.as_str());
    }
    if let Some(album) = new_album {
        changed = true;
        track.tag.set_album(album.as_str());
    }
    Ok(FixOutcome { changed, persist: changed && !dry_run })
}

/// A tag that the fixers have nothing to change in is left as it is, so a
/// further run has nothing to change either.
pub proof fn lemma_fixed_tag_unchanged(tag: TagView)
    requires
        !needs_fixing(tag),
    ensures
        fixed_tag(tag) == tag,
{
}

/// The album settles in one run: whatever the tag held, after the fixers
/// its album needs no fix.
pub proof fn lemma_album_settles(tag: TagView)
    ensures
        fix_album_spec(fixed_tag(tag).album) is None,
{
    match tag.album {
        None => {},
        Some(album) => {
            lemma_normalise_idempotent(album);
        },
    }
}

/// An artist field that needs no fix still needs none after the fixers,
/// which leave it alone.
pub proof fn lemma_artist_stays(tag: TagView)
    requires
        fix_artist_spec(tag.artist) is None,
    ensures
        fixed_tag(tag).artist == tag.artist,
        fix_artist_spec(fixed_tag(tag).artist) is None,
{
}

/// No keyword stands in the title or in the artist field, neither as they
/// are nor in their plain form.
pub open spec fn free_of_keywords(tag: TagView) -> bool {
    &&& !has_keyword(or_empty(tag.title), keywords())
    &&& !has_keyword(normalise_spec(or_empty(tag.title)), keywords())
    &&& !has_keyword(or_empty(tag.artist), keywords())
    &&& !has_keyword(normalise_spec(or_empty(tag.artist)), keywords())
}

/// A tag without featured artists settles in one run: if no keyword stands
/// in its title or its artist field, then after the fixers no field needs a
/// fix, so a second run reports no change.
pub proof fn lemma_fixers_settle_without_keywords(tag: TagView)
    requires
        free_of_keywords(tag),
    ensures
        !needs_fixing(fixed_tag(tag)),
        fixed_tag(fixed_tag(tag)) == fixed_tag(tag),
{
    let kws = keywords();
    let artist = or_empty(tag.artist);
    lemma_extract_feat_without_keyword(artist, kws);
    lemma_extract_feat_without_keyword(normalise_spec(artist), kws);
    assert(fix_artist_spec(tag.artist) is None);
    lemma_album_settles(tag);
    match tag.title {
        None => {},
        Some(title) => {
            lemma_extract_feat_without_keyword(title, kws);
            lemma_extract_feat_without_keyword(normalise_spec(title), kws);
            let nobody = whole_title(title).featured_artists + whole_title(artist).featured_artists;
            assert(nobody.len() == 0);
            assert(make_title_spec(whole_title(title), whole_title(artist)) == normalise_spec(
                title,
            ));
            lemma_normalise_idempotent(title);
            let after = fixed_tag(tag).title.unwrap();
            assert(after == title || after == normalise_spec(title));
            assert(normalise_spec(after) == after);
            let none_after = whole_title(after).featured_artists + whole_title(
                artist,
            ).featured_artists;
            assert(none_after.len() == 0);
            assert(make_title_spec(whole_title(after), whole_title(artist)) == normalise_spec(
                after,
            ));
        },
    }
    lemma_fixed_tag_unchanged(fixed_tag(tag));
}

} // verus!
