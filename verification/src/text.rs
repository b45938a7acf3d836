//! Small string utilities: trimming the line ending that a read keeps, and
//! a few whole-string transformations.

use vstd::prelude::*;
use vstd::string::StrSliceExecFns;

verus! {

/// The string with every trailing `c` removed.
pub open spec fn drop_trailing(s: Seq<char>, c: char) -> Seq<char>
    decreases s.len(),
{
    if s.len() > 0 && s.last() == c {
        drop_trailing(s.drop_last(), c)
    } else {
        s
    }
}

/// Strips one line ending off the string: every trailing line feed, then
/// every trailing carriage return.
pub fn remove_new_line(string: &mut String)
    ensures
        final(string)@ == drop_trailing(drop_trailing(old(string)@, '\n'), '\r'),
{
    let ghost v = string@;
    let n = string.as_str().unicode_len();
    let mut end: usize = n;
    proof {
        assert(v.take(n as int) =~= v);
    }
    while end > 0 && string.as_str().get_char(end - 1) == '\n'
        invariant
            end <= n,
            n == string@.len(),
            v == string@,
            drop_trailing(v, '\n') == drop_trailing(v.take(end as int), '\n'),
        decreases end,
    {
        proof {
            assert(v.take(end as int).last() == v[end - 1]);
            assert(v.take(end as int).drop_last() =~= v.take(end as int - 1));
        }
        end = end - 1;
    }
    proof {
        if end > 0 {
            assert(v.take(end as int).last() == v[end - 1]);
        }
        assert(drop_trailing(v.take(end as int), '\n') == v.take(end as int));
    }
    let ghost mid = v.take(end as int);
    let after_lf = end;
    while end > 0 && string.as_str().get_char(end - 1) == '\r'
        invariant
            end <= after_lf <= n,
            n == string@.len(),
            v == string@,
            mid == v.take(after_lf as int),
            drop_trailing(mid, '\r') == drop_trailing(v.take(end as int), '\r'),
        decreases end,
    {
        proof {
            assert(v.take(end as int).last() == v[end - 1]);
            assert(v.take(end as int).drop_last() =~= v.take(end as int - 1));
        }
        end = end - 1;
    }
    proof {
        if end > 0 {
            assert(v.take(end as int).last() == v[end - 1]);
        }
        assert(drop_trailing(v.take(end as int), '\r') == v.take(end as int));
    }
    let trimmed = String::from_str(string.as_str().substring_char(0, end));
    proof {
        assert(trimmed@ =~= v.take(end as int));
    }
    *string = trimmed;
}

/// What the Unicode lowercase mapping yields for these characters.
pub uninterp spec fn lower_of(s: Seq<char>) -> Seq<char>;

/// The string in lower case.
///
/// Relies on str::to_lowercase: the Unicode lowercase form, a function of
/// the characters alone, and empty for the empty string.
#[verifier::external_body]
pub fn to_lowercase(string: &str) -> (r: String)
    ensures
        r@ == lower_of(string@),
        string@.len() == 0 ==> r@.len() == 0,
{
    string.to_lowercase()
}

/// What the Unicode uppercase mapping yields for these characters.
pub uninterp spec fn upper_of(s: Seq<char>) -> Seq<char>;

/// The string in upper case.
///
/// Relies on str::to_uppercase: the Unicode uppercase form, a function of
/// the characters alone, and empty for the empty string.
#[verifier::external_body]
pub fn to_uppercase(string: &str) -> (r: String)
    ensures
        r@ == upper_of(string@),
        string@.len() == 0 ==> r@.len() == 0,
{
    string.to_uppercase()
}

/// Everything but a space.
pub open spec fn not_space() -> spec_fn(char) -> bool {
    |c: char| c != ' '
}

/// The string with every space removed.
pub fn to_no_spaces(string: &str) -> (r: String)
    ensures
        r@ == string@.filter(not_space()),
{
    let n = string.unicode_len();
    let mut out = String::new();
    let mut i: usize = 0;
    proof {
        assert(string@.take(0).filter(not_space()) =~= Seq::<char>::empty());
    }
    while i < n
        invariant
            i <= n,
            n == string@.len(),
            out@ == string@.take(i as int).filter(not_space()),
        decreases n - i,
    {
        let c = string.get_char(i);
        proof {
            Seq::filter_distributes_over_add(
                string@.take(i as int),
                seq![string@[i as int]],
                not_space(),
            );
            assert(string@.take(i as int) + seq![string@[i as int]] =~= string@.take(i as int + 1));
            reveal_with_fuel(Seq::filter, 2);
            assert(seq![string@[i as int]].drop_last() =~= Seq::<char>::empty());
            if not_space()(string@[i as int]) {
                assert(seq![string@[i as int]].filter(not_space()) =~= seq![string@[i as int]]);
            } else {
                assert(seq![string@[i as int]].filter(not_space()) =~= Seq::<char>::empty());
            }
        }
        if c != ' ' {
            let piece = string.substring_char(i, i + 1);
            proof {
                assert(piece@ =~= seq![string@[i as int]]);
            }
            out.append(piece);
        }
        i = i + 1;
    }
    proof {
        assert(string@.take(n as int) =~= string@);
    }
    out
}

/// The string's extended grapheme clusters, concatenated in the opposite
/// order.
pub uninterp spec fn grapheme_rev_of(s: Seq<char>) -> Seq<char>;

/// The string with its extended grapheme clusters in the opposite order, so
/// that a character and its combining marks travel together.
///
/// Relies on unicode_segmentation's graphemes: the extended grapheme
/// clusters of the string per the Unicode segmentation rules, a function of
/// the characters alone; the clusters partition the string, so their number
/// of characters survives the reordering.
#[verifier::external_body]
pub fn to_reverse(string: &str) -> (r: String)
    ensures
        r@ == grapheme_rev_of(string@),
        r@.len() == string@.len(),
        string@.len() == 0 ==> r@.len() == 0,
{
    unicode_segmentation::UnicodeSegmentation::graphemes(string, true).rev().collect()
}

} // verus!
