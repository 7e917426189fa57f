//! What a run over a directory decides without touching it: which files
//! are music, which of them are due, where the time of the last run is
//! kept, and what a tag's field looks like inside a path.

use crate::feat::{is_keyword_at, keyword_at};
use crate::rename::{join_under, join_under_spec};
use crate::text::{chars_of, is_white_space, is_whitespace, seqs_of, string_of};
use vstd::prelude::*;

verus! {

/// The extensions of the files that are music, in lower case.
pub open spec fn allowed_exts() -> Seq<Seq<char>> {
    seq![seq!['m', 'p', '3'], seq!['f', 'l', 'a', 'c'], seq!['m', '4', 'a']]
}

/// `ext` is one of the allowed extensions, letter case aside.
pub open spec fn is_allowed_ext_spec(ext: Seq<char>) -> bool {
    exists|k: int|
        0 <= k < allowed_exts().len() && ext.len() == (#[trigger] allowed_exts()[k]).len()
            && keyword_at(ext, 0, allowed_exts()[k])
}

/// Tells whether a file with this extension is music.
pub fn is_allowed_ext(ext: &str) -> (b: bool)
    ensures
        b == is_allowed_ext_spec(ext@),
{
    let v: Vec<char> = chars_of(ext);
    let mut exts: Vec<Vec<char>> = Vec::new();
    exts.push(vec!['m', 'p', '3']);
    exts.push(vec!['f', 'l', 'a', 'c']);
    exts.push(vec!['m', '4', 'a']);
    proof {
        assert(exts@[0]@ =~= allowed_exts()[0]);
        assert(exts@[1]@ =~= allowed_exts()[1]);
        assert(exts@[2]@ =~= allowed_exts()[2]);
        assert(seqs_of(exts@) =~= allowed_exts());
    }
    let mut k: usize = 0;
    while k < exts.len()
        invariant
            k <= exts@.len(),
            v@ == ext@,
            seqs_of(exts@) == allowed_exts(),
            forall|i: int|
                0 <= i < k ==> !(v@.len() == (#[trigger] allowed_exts()[i]).len() && keyword_at(
                    v@,
                    0,
                    allowed_exts()[i],
                )),
        decreases exts@.len() - k,
    {
        proof {
            assert(seqs_of(exts@)[k as int] == exts@[k as int]@);
        }
        if v.len() == exts[k].len() && is_keyword_at(&v, 0, &exts[k]) {
            proof {
                let w = allowed_exts()[k as int];
                assert(v@.len() == w.len() && keyword_at(v@, 0, w));
            }
            return true;
        }
        k += 1;
    }
    false
}

/// Whether `c` is a letter or a number, as Unicode classes them.
pub uninterp spec fn alphanumeric(c: char) -> bool;

/// Asks std whether `c` is a letter or a number (`char::is_alphanumeric`):
/// the answer depends on `c` only, and the Unicode tables of std decide it.
#[verifier::external_body]
pub(crate) fn is_alphanumeric(c: char) -> (b: bool)
    ensures
        b == alphanumeric(c),
{
    c.is_alphanumeric()
}

/// A character that may stand in a part of a path as it is.
pub open spec fn is_accepted(c: char) -> bool {
    ||| alphanumeric(c)
    ||| is_white_space(c)
    ||| c == '.'
    ||| c == '-'
    ||| c == '('
    ||| c == ')'
    ||| c == ','
}

/// A tag's field as it goes into a path: every character that is not
/// accepted is an underscore.
pub open spec fn clean_part_spec(s: Seq<char>) -> Seq<char> {
    Seq::new(
        s.len(),
        |i: int|
            if is_accepted(s[i]) {
                s[i]
            } else {
                '_'
            },
    )
}

/// Makes a tag's field fit for a path.  The separator of paths is not
/// accepted, so the result is one part of a path.
pub fn clean_part(path_part: &str) -> (r: String)
    ensures
        r@ == clean_part_spec(path_part@),
{
    let v: Vec<char> = chars_of(path_part);
    let mut out: Vec<char> = Vec::new();
    let mut i: usize = 0;
    while i < v.len()
        invariant
            i <= v@.len(),
            out@.len() == i,
            forall|j: int| 0 <= j < i ==> out@[j] == clean_part_spec(v@)[j],
        decreases v@.len() - i,
    {
        let c: char = v[i];
        let keep: bool = c == '.' || c == '-' || c == '(' || c == ')' || c == ',' || is_whitespace(
            c,
        ) || is_alphanumeric(c);
        if keep {
            out.push(c);
        } else {
            out.push('_');
        }
        i += 1;
    }
    proof {
        assert(out@ =~= clean_part_spec(v@));
    }
    string_of(&out)
}

/// The name of the file that keeps the time of the last run.
pub open spec fn lastmack_name() -> Seq<char> {
    ".lastmack"@
}

/// Whether a file is due: it was modified after the last run.  Both times
/// count from the same start, in the same unit.
pub fn is_updated_since_last_run(modified: u128, last_run: u128) -> (b: bool)
    ensures
        b == (modified > last_run),
{
    modified > last_run
}

/// Whether a run handles a file: always when forced, otherwise when the
/// file is due.
pub fn is_due(force: bool, modified: u128, last_run: u128) -> (b: bool)
    ensures
        b == (force || modified > last_run),
{
    force || is_updated_since_last_run(modified, last_run)
}

/// Where the time of the last run over `base_path` is kept: the file
/// `.lastmack` in that directory.
pub fn make_lastmack_path(base_path: &str) -> (r: String)
    ensures
        r@ == join_under_spec(base_path@, lastmack_name()),
{
    let base: Vec<char> = chars_of(base_path);
    let name: Vec<char> = chars_of(".lastmack");
    string_of(&join_under(&base, &name))
}

/// The character for a digit.
pub open spec fn digit_char(d: nat) -> char {
    if d == 0 {
        '0'
    } else if d == 1 {
        '1'
    } else if d == 2 {
        '2'
    } else if d == 3 {
        '3'
    } else if d == 4 {
        '4'
    } else if d == 5 {
        '5'
    } else if d == 6 {
        '6'
    } else if d == 7 {
        '7'
    } else if d == 8 {
        '8'
    } else {
        '9'
    }
}

/// A number in decimal digits.
pub open spec fn decimal_spec(n: nat) -> Seq<char>
    decreases n,
{
    if n < 10 {
        seq![digit_char(n)]
    } else {
        decimal_spec(n / 10).push(digit_char(n % 10))
    }
}

/// A track number as it stands in a path: in decimal digits, with a zero
/// before a single digit.
pub open spec fn track_text_spec(n: nat) -> Seq<char> {
    if n < 10 {
        seq!['0'] + decimal_spec(n)
    } else {
        decimal_spec(n)
    }
}

/// The character for a digit.
pub fn digit(d: u32) -> (c: char)
    requires
        d < 10,
    ensures
        c == digit_char(d as nat),
{
    if d == 0 {
        '0'
    } else if d == 1 {
        '1'
    } else if d == 2 {
        '2'
    } else if d == 3 {
        '3'
    } else if d == 4 {
        '4'
    } else if d == 5 {
        '5'
    } else if d == 6 {
        '6'
    } else if d == 7 {
        '7'
    } else if d == 8 {
        '8'
    } else {
        '9'
    }
}

/// Writes a number in decimal digits.
pub fn decimal(n: u32) -> (r: Vec<char>)
    ensures
        r@ == decimal_spec(n as nat),
    decreases n,
{
    if n < 10 {
        let r: Vec<char> = vec![digit(n)];
        proof {
            assert(r@ =~= seq![digit_char(n as nat)]);
        }
        r
    } else {
        let mut r: Vec<char> = decimal(n / 10);
        r.push(digit(n % 10));
        r
    }
}

/// Writes a track number as it stands in a path.
pub fn track_text(n: u32) -> (r: String)
    ensures
        r@ == track_text_spec(n as nat),
{
    let mut digits: Vec<char> = decimal(n);
    if n < 10 {
        let mut padded: Vec<char> = vec!['0'];
        let ghost tail = digits@;
        padded.append(&mut digits);
        proof {
            assert(padded@ =~= seq!['0'] + tail);
        }
        string_of(&padded)
    } else {
        string_of(&digits)
    }
}

} // verus!
