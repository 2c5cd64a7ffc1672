//! Splitting and trimming of character sequences, as decoding needs them:
//! splitting keeps empty pieces, trimming removes surrounding whitespace.

use vstd::prelude::*;
use crate::chars::is_space_char;
use crate::chars::is_space;

verus! {

/// Splits a character sequence at every occurrence of `sep`. The separators
/// themselves are dropped; k separators yield k + 1 pieces, so consecutive,
/// leading, and trailing separators produce empty pieces.
pub open spec fn split_on(s: Seq<char>, sep: char) -> Seq<Seq<char>>
    decreases s.len(),
{
    if s.len() == 0 {
        seq![Seq::<char>::empty()]
    } else if s[0] == sep {
        seq![Seq::<char>::empty()] + split_on(s.drop_first(), sep)
    } else {
        let rest = split_on(s.drop_first(), sep);
        seq![seq![s[0]] + rest[0]] + rest.drop_first()
    }
}

/// The first piece of a split extended at its front: how a not-yet-delimited
/// prefix joins the pieces of the remaining text.
pub open spec fn prepend_first(p: Seq<char>, ts: Seq<Seq<char>>) -> Seq<Seq<char>>
    recommends
        ts.len() >= 1,
{
    seq![p + ts[0]] + ts.drop_first()
}

/// A split always has at least one piece.
pub proof fn lemma_split_len(s: Seq<char>, sep: char)
    ensures
        split_on(s, sep).len() >= 1,
    decreases s.len(),
{
    if s.len() > 0 {
        lemma_split_len(s.drop_first(), sep);
    }
}

/// A sequence without the separator splits into itself alone.
pub proof fn lemma_split_no_sep(s: Seq<char>, sep: char)
    requires
        forall|i: int| 0 <= i < s.len() ==> s[i] != sep,
    ensures
        split_on(s, sep) =~~= seq![s],
    decreases s.len(),
{
    if s.len() > 0 {
        lemma_split_no_sep(s.drop_first(), sep);
        assert(seq![s[0]] + s.drop_first() =~= s);
    }
}

/// Splitting around one separator concatenates the splits of the two sides.
pub proof fn lemma_split_concat(x: Seq<char>, y: Seq<char>, sep: char)
    ensures
        split_on(x + seq![sep] + y, sep) =~~= split_on(x, sep) + split_on(y, sep),
    decreases x.len(),
{
    let z = x + seq![sep] + y;
    if x.len() == 0 {
        assert(z[0] == sep);
        assert(z.drop_first() =~= y);
    } else {
        assert(z[0] == x[0]);
        assert(z.drop_first() =~= x.drop_first() + seq![sep] + y);
        lemma_split_concat(x.drop_first(), y, sep);
        lemma_split_len(x.drop_first(), sep);
        lemma_split_len(y, sep);
        if x[0] != sep {
            let rest = split_on(x.drop_first(), sep);
            assert((rest + split_on(y, sep))[0] == rest[0]);
            assert((rest + split_on(y, sep)).drop_first() =~~= rest.drop_first() + split_on(
                y,
                sep,
            ));
        }
    }
}

/// Splits the characters of `s` at every occurrence of `sep`.
pub fn split_char(s: &Vec<char>, sep: char) -> (r: Vec<Vec<char>>)
    ensures
        r.deep_view() == split_on(s@, sep),
{
    let mut pieces: Vec<Vec<char>> = Vec::new();
    let mut cur: Vec<char> = Vec::new();
    let mut i: usize = 0;
    proof {
        lemma_split_len(s@, sep);
        assert(s@.skip(0) =~= s@);
        let ts = split_on(s@, sep);
        assert(Seq::<char>::empty() + ts[0] =~= ts[0]);
        assert(pieces.deep_view() + prepend_first(cur@, ts) =~~= ts);
    }
    while i < s.len()
        invariant
            i <= s.len(),
            split_on(s@, sep) =~~= pieces.deep_view() + prepend_first(
                cur@,
                split_on(s@.skip(i as int), sep),
            ),
        decreases s.len() - i,
    {
        proof {
            lemma_split_len(s@.skip(i as int + 1), sep);
            assert(s@.skip(i as int)[0] == s@[i as int]);
            assert(s@.skip(i as int).drop_first() =~= s@.skip(i as int + 1));
        }
        let ghost old_pieces = pieces.deep_view();
        let ghost old_cur = cur@;
        let c = s[i];
        if c == sep {
            pieces.push(cur);
            cur = Vec::new();
            proof {
                assert(pieces.deep_view() =~~= old_pieces.push(old_cur));
                let ts = split_on(s@.skip(i as int), sep);
                let ts1 = split_on(s@.skip(i as int + 1), sep);
                assert(ts =~~= seq![Seq::<char>::empty()] + ts1);
                assert(prepend_first(old_cur, ts) =~~= seq![old_cur] + ts1);
                assert(old_pieces + prepend_first(old_cur, ts) =~~= pieces.deep_view()
                    + prepend_first(cur@, ts1));
            }
        } else {
            cur.push(c);
            proof {
                let ts = split_on(s@.skip(i as int), sep);
                let ts1 = split_on(s@.skip(i as int + 1), sep);
                assert(ts =~~= seq![seq![c] + ts1[0]] + ts1.drop_first());
                assert(old_cur + ts[0] =~= cur@ + ts1[0]);
                assert(prepend_first(old_cur, ts) =~~= prepend_first(cur@, ts1));
            }
        }
        i = i + 1;
    }
    proof {
        assert(s@.skip(s@.len() as int) =~= Seq::<char>::empty());
        assert(prepend_first(cur@, split_on(Seq::<char>::empty(), sep)) =~~= seq![cur@]);
    }
    let ghost old_pieces = pieces.deep_view();
    pieces.push(cur);
    proof {
        assert(pieces.deep_view() =~~= old_pieces.push(cur@));
        assert(pieces.deep_view() =~~= split_on(s@, sep));
    }
    pieces
}

/// The sequence with its trailing whitespace removed.
pub open spec fn trim_end_spec(s: Seq<char>) -> Seq<char>
    decreases s.len(),
{
    if s.len() > 0 && is_space_char(s.last()) {
        trim_end_spec(s.drop_last())
    } else {
        s
    }
}

/// The sequence with its leading whitespace removed.
pub open spec fn trim_start_spec(s: Seq<char>) -> Seq<char>
    decreases s.len(),
{
    if s.len() > 0 && is_space_char(s[0]) {
        trim_start_spec(s.drop_first())
    } else {
        s
    }
}

/// The sequence with whitespace removed at both ends.
pub open spec fn trim_spec(s: Seq<char>) -> Seq<char> {
    trim_end_spec(trim_start_spec(s))
}

/// Appending whitespace does not change the trimmed end; appending anything
/// else makes the trim a no-op at that end.
pub proof fn lemma_trim_end_push(s: Seq<char>, c: char)
    ensures
        is_space_char(c) ==> trim_end_spec(s.push(c)) == trim_end_spec(s),
        !is_space_char(c) ==> trim_end_spec(s.push(c)) == s.push(c),
{
    assert(s.push(c).drop_last() =~= s);
}

/// Trimming the end leaves a prefix: length can only shrink, and what remains
/// is unchanged.
pub proof fn lemma_trim_end_prefix(s: Seq<char>)
    ensures
        trim_end_spec(s).len() <= s.len(),
        forall|i: int| 0 <= i < trim_end_spec(s).len() ==> trim_end_spec(s)[i] == s[i],
    decreases s.len(),
{
    if s.len() > 0 && is_space_char(s.last()) {
        lemma_trim_end_prefix(s.drop_last());
        assert(forall|i: int| 0 <= i < s.drop_last().len() ==> s.drop_last()[i] == s[i]);
    }
}

/// Trimming the end keeps every position up to the last non-whitespace
/// character.
pub proof fn lemma_trim_end_keeps(s: Seq<char>, i: int)
    requires
        0 <= i < s.len(),
        !is_space_char(s[i]),
    ensures
        trim_end_spec(s).len() > i,
    decreases s.len(),
{
    if is_space_char(s.last()) {
        assert(s.drop_last()[i] == s[i]);
        lemma_trim_end_keeps(s.drop_last(), i);
    }
}

/// A sequence whose ends hold no whitespace trims to itself.
pub proof fn lemma_trim_noop(s: Seq<char>)
    requires
        s.len() > 0 ==> !is_space_char(s[0]),
        s.len() > 0 ==> !is_space_char(s.last()),
    ensures
        trim_spec(s) == s,
{
}

/// Removes the trailing whitespace of `v` in place.
pub fn trim_end_vec(v: &mut Vec<char>)
    ensures
        final(v)@ == trim_end_spec(old(v)@),
{
    loop
        invariant
            trim_end_spec(v@) == trim_end_spec(old(v)@),
        decreases v@.len(),
    {
        if v.len() == 0 {
            return ;
        }
        let c = v[v.len() - 1];
        if !is_space(c) {
            return ;
        }
        let ghost before = v@;
        v.pop();
        proof {
            assert(v@ =~= before.drop_last());
        }
    }
}

/// The characters of `t` with surrounding whitespace removed.
pub fn trimmed(t: &Vec<char>) -> (r: Vec<char>)
    ensures
        r@ == trim_spec(t@),
{
    let mut lo: usize = 0;
    proof {
        assert(t@.skip(0) =~= t@);
    }
    while lo < t.len() && is_space(t[lo])
        invariant
            lo <= t.len(),
            trim_start_spec(t@) == trim_start_spec(t@.skip(lo as int)),
        decreases t.len() - lo,
    {
        proof {
            assert(t@.skip(lo as int)[0] == t@[lo as int]);
            assert(t@.skip(lo as int).drop_first() =~= t@.skip(lo as int + 1));
        }
        lo = lo + 1;
    }
    proof {
        if lo < t.len() {
            assert(t@.skip(lo as int)[0] == t@[lo as int]);
        } else {
            assert(t@.skip(lo as int) =~= Seq::<char>::empty());
        }
        assert(trim_start_spec(t@) == t@.skip(lo as int));
    }
    let mut hi: usize = t.len();
    while hi > lo && is_space(t[hi - 1])
        invariant
            lo <= hi <= t.len(),
            trim_start_spec(t@) == t@.skip(lo as int),
            trim_end_spec(t@.subrange(lo as int, hi as int)) == trim_end_spec(
                t@.skip(lo as int),
            ),
        decreases hi,
    {
        proof {
            let piece = t@.subrange(lo as int, hi as int);
            assert(piece.last() == t@[hi as int - 1]);
            assert(piece.drop_last() =~= t@.subrange(lo as int, hi as int - 1));
        }
        hi = hi - 1;
    }
    proof {
        let piece = t@.subrange(lo as int, hi as int);
        if hi > lo {
            assert(piece.last() == t@[hi as int - 1]);
        }
        assert(trim_end_spec(piece) == piece);
    }
    let mut r: Vec<char> = Vec::new();
    let mut k: usize = lo;
    while k < hi
        invariant
            lo <= k <= hi <= t.len(),
            r@ =~= t@.subrange(lo as int, k as int),
        decreases hi - k,
    {
        r.push(t[k]);
        k = k + 1;
    }
    proof {
        assert(r@ =~= t@.subrange(lo as int, hi as int));
    }
    r
}

} // verus!
