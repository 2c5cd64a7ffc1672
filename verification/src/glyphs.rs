//! The symbolic glyphs, and the correspondence between glyph strings and code
//! numbers.
//!
//! A symbolic code is a nonempty string over two glyphs, a "dot" and a "dash".
//! Internally each code is identified by its code number: the binary numeral
//! obtained by writing a leading 1, then 0 for every dot and 1 for every dash.
//! Distinct glyph strings get distinct numbers, so the fixed alphabet table
//! can be stated over numbers alone.

use vstd::prelude::*;

verus! {

/// The glyph standing for a short ("dot") code element.
pub const DOT_GLYPH: char = '\u{1f62d}';

/// The glyph standing for a long ("dash") code element.
pub const DASH_GLYPH: char = '\u{1f4a2}';

/// The marker prefixed to a token whose source character was an uppercase
/// letter.
pub const CASE_MARKER: char = '^';

/// The glyph string of a code number: the number is read in binary, its
/// leading 1 dropped, every 0 bit written as the dot glyph and every 1 bit as
/// the dash glyph. Numbers 0 and 1 have no bits below the leading 1 and give
/// the empty string.
pub open spec fn glyphs_of(n: nat) -> Seq<char>
    decreases n,
{
    if n <= 1 {
        Seq::<char>::empty()
    } else {
        glyphs_of(n / 2).push(if n % 2 == 1 {
            DASH_GLYPH
        } else {
            DOT_GLYPH
        })
    }
}

/// Reads a glyph string left to right, extending the accumulated code number
/// `acc` by one bit per glyph; a character that is not a glyph yields no
/// number.
pub open spec fn num_rec(s: Seq<char>, acc: nat) -> Option<nat>
    decreases s.len(),
{
    if s.len() == 0 {
        Some(acc)
    } else if s[0] == DOT_GLYPH {
        num_rec(s.drop_first(), acc * 2)
    } else if s[0] == DASH_GLYPH {
        num_rec(s.drop_first(), acc * 2 + 1)
    } else {
        None
    }
}

/// The code number of a string, if the string consists of glyphs alone: its
/// bits read behind an implicit leading 1. The empty string is number 1.
pub open spec fn num_of_glyphs(s: Seq<char>) -> Option<nat> {
    num_rec(s, 1)
}

/// Every character of a written-out code is one of the two glyphs.
pub proof fn lemma_glyphs_are_glyphs(n: nat)
    ensures
        forall|i: int|
            0 <= i < glyphs_of(n).len() ==> glyphs_of(n)[i] == DOT_GLYPH || glyphs_of(n)[i]
                == DASH_GLYPH,
    decreases n,
{
    if n > 1 {
        lemma_glyphs_are_glyphs(n / 2);
        let g = if n % 2 == 1 {
            DASH_GLYPH
        } else {
            DOT_GLYPH
        };
        assert forall|i: int| 0 <= i < glyphs_of(n).len() implies glyphs_of(n)[i] == DOT_GLYPH
            || glyphs_of(n)[i] == DASH_GLYPH by {
            if i < glyphs_of(n / 2).len() {
                assert(glyphs_of(n)[i] == glyphs_of(n / 2)[i]);
            } else {
                assert(glyphs_of(n)[i] == g);
            }
        }
    }
}

/// A code number of at least 2 is written as at least one glyph.
pub proof fn lemma_glyphs_nonempty(n: nat)
    requires
        n >= 2,
    ensures
        glyphs_of(n).len() >= 1,
{
}

/// Reading a glyph string with one more glyph at its end extends the code
/// number by the corresponding bit.
pub proof fn lemma_num_rec_push(s: Seq<char>, g: char, acc: nat)
    ensures
        num_rec(s.push(g), acc) == (if g == DOT_GLYPH || g == DASH_GLYPH {
            match num_rec(s, acc) {
                Some(m) => Some((if g == DASH_GLYPH {
                    m * 2 + 1
                } else {
                    m * 2
                }) as nat),
                None => None::<nat>,
            }
        } else {
            None::<nat>
        }),
    decreases s.len(),
{
    if s.len() == 0 {
        assert(s.push(g)[0] == g);
        assert(s.push(g).drop_first() =~= Seq::<char>::empty());
    } else {
        assert(s.push(g)[0] == s[0]);
        assert(s.push(g).drop_first() =~= s.drop_first().push(g));
        lemma_num_rec_push(s.drop_first(), g, acc * 2);
        lemma_num_rec_push(s.drop_first(), g, acc * 2 + 1);
    }
}

/// Writing a code number as glyphs and reading the glyphs back yields the
/// same number.
pub proof fn lemma_glyph_num_roundtrip(n: nat)
    requires
        n >= 1,
    ensures
        num_of_glyphs(glyphs_of(n)) == Some(n),
    decreases n,
{
    if n <= 1 {
    } else {
        lemma_glyph_num_roundtrip(n / 2);
        lemma_num_rec_push(
            glyphs_of(n / 2),
            if n % 2 == 1 {
                DASH_GLYPH
            } else {
                DOT_GLYPH
            },
            1,
        );
        assert(n / 2 * 2 + n % 2 == n) by (nonlinear_arith);
    }
}

/// Reading glyphs only ever grows the accumulated number.
pub proof fn lemma_num_rec_lower_bound(s: Seq<char>, acc: nat)
    ensures
        num_rec(s, acc) matches Some(m) ==> m >= acc,
    decreases s.len(),
{
    if s.len() > 0 {
        lemma_num_rec_lower_bound(s.drop_first(), acc * 2);
        lemma_num_rec_lower_bound(s.drop_first(), acc * 2 + 1);
    }
}

/// Appends the glyph string of code number `n` to `out`.
pub fn push_glyphs(out: &mut Vec<char>, n: u32)
    ensures
        final(out)@ == old(out)@ + glyphs_of(n as nat),
    decreases n,
{
    if n <= 1 {
        assert(out@ =~= out@ + glyphs_of(n as nat));
    } else {
        push_glyphs(out, n / 2);
        if n % 2 == 1 {
            out.push(DASH_GLYPH);
        } else {
            out.push(DOT_GLYPH);
        }
        assert((n / 2) as nat == (n as nat) / 2);
        assert((n % 2) as nat == (n as nat) % 2);
        assert(out@ =~= old(out)@ + glyphs_of(n as nat));
    }
}

} // verus!
