//! The transcoder: encoding text into the symbolic alphabet and decoding
//! symbolic text back.
//!
//! Both directions are pure: the outcome carries the transformed text together
//! with the characters (encoding) or tokens (decoding) that the table cannot
//! map, in encounter order, so a caller can report them on whatever channel it
//! likes.

use vstd::prelude::*;
use crate::alphabet::char_of_code;
use crate::alphabet::code_of;
use crate::alphabet::in_alphabet;
use crate::alphabet::lemma_char_of_code_none_above;
use crate::alphabet::lookup_char;
use crate::alphabet::lookup_code;
use crate::chars::is_space;
use crate::chars::is_space_char;
use crate::chars::is_upper_letter;
use crate::chars::lower_char;
use crate::chars::to_lower;
use crate::chars::to_upper;
use crate::chars::upper_char;
use crate::chars::upper_letter;
use crate::glyphs::glyphs_of;
use crate::glyphs::lemma_num_rec_lower_bound;
use crate::glyphs::num_of_glyphs;
use crate::glyphs::num_rec;
use crate::glyphs::push_glyphs;
use crate::glyphs::CASE_MARKER;
use crate::glyphs::DASH_GLYPH;
use crate::glyphs::DOT_GLYPH;
use crate::textops::split_char;
use crate::textops::split_on;
use crate::textops::trim_end_spec;
use crate::textops::trim_end_vec;
use crate::textops::trim_spec;
use crate::textops::trimmed;

verus! {

// ---------------------------------------------------------------------------
// Encoding, specified
// ---------------------------------------------------------------------------
/// Whether encoding can map a character: its ASCII-uppercase form must stand
/// in the table.
pub open spec fn encodable(c: char) -> bool {
    in_alphabet(upper_char(c))
}

/// One character's contribution to the raw encoded text: a newline is kept,
/// other whitespace becomes a single space, a mappable character becomes its
/// code (prefixed with the case marker when the character is an uppercase
/// letter) followed by one separating space, and anything else contributes
/// nothing.
pub open spec fn encode_piece(c: char) -> Seq<char> {
    if c == '\n' {
        seq!['\n']
    } else if is_space_char(c) {
        seq![' ']
    } else if encodable(c) {
        (if is_upper_letter(c) {
            seq![CASE_MARKER]
        } else {
            Seq::<char>::empty()
        }) + glyphs_of(code_of(upper_char(c)) as nat) + seq![' ']
    } else {
        Seq::<char>::empty()
    }
}

/// The raw encoded text: the pieces of all characters in order, before the
/// final trim.
pub open spec fn encode_raw(s: Seq<char>) -> Seq<char>
    decreases s.len(),
{
    if s.len() == 0 {
        Seq::<char>::empty()
    } else {
        encode_piece(s[0]) + encode_raw(s.drop_first())
    }
}

/// The encoded text handed back: the raw text with trailing whitespace
/// removed once, at the very end.
pub open spec fn encode_text(s: Seq<char>) -> Seq<char> {
    trim_end_spec(encode_raw(s))
}

/// The characters encoding cannot map — not newlines, not whitespace, and
/// without a table entry for their uppercase form — in encounter order.
pub open spec fn unencodable_of(s: Seq<char>) -> Seq<char>
    decreases s.len(),
{
    if s.len() == 0 {
        Seq::<char>::empty()
    } else {
        (if s[0] != '\n' && !is_space_char(s[0]) && !encodable(s[0]) {
            seq![s[0]]
        } else {
            Seq::<char>::empty()
        }) + unencodable_of(s.drop_first())
    }
}

/// Extending the input by one character appends that character's piece to the
/// raw encoded text.
pub proof fn lemma_encode_raw_push(s: Seq<char>, c: char)
    ensures
        encode_raw(s.push(c)) =~= encode_raw(s) + encode_piece(c),
        unencodable_of(s.push(c)) =~= unencodable_of(s) + (if c != '\n' && !is_space_char(c)
            && !encodable(c) {
            seq![c]
        } else {
            Seq::<char>::empty()
        }),
    decreases s.len(),
{
    if s.len() == 0 {
        assert(s.push(c)[0] == c);
        assert(s.push(c).drop_first() =~= Seq::<char>::empty());
        assert(encode_raw(Seq::<char>::empty()) =~= Seq::<char>::empty());
        assert(unencodable_of(Seq::<char>::empty()) =~= Seq::<char>::empty());
        assert(encode_raw(s.push(c)) =~= encode_piece(c) + encode_raw(Seq::<char>::empty()));
        assert(unencodable_of(s.push(c)) =~= (if c != '\n' && !is_space_char(c) && !encodable(c) {
            seq![c]
        } else {
            Seq::<char>::empty()
        }) + unencodable_of(Seq::<char>::empty()));
    } else {
        assert(s.push(c)[0] == s[0]);
        assert(s.push(c).drop_first() =~= s.drop_first().push(c));
        lemma_encode_raw_push(s.drop_first(), c);
        assert(encode_raw(s.push(c)) =~= encode_piece(s[0]) + encode_raw(s.drop_first().push(c)));
        assert(encode_raw(s) =~= encode_piece(s[0]) + encode_raw(s.drop_first()));
        assert(unencodable_of(s.push(c)) =~= (if s[0] != '\n' && !is_space_char(s[0]) && !encodable(
            s[0],
        ) {
            seq![s[0]]
        } else {
            Seq::<char>::empty()
        }) + unencodable_of(s.drop_first().push(c)));
    }
}

// ---------------------------------------------------------------------------
// Decoding, specified
// ---------------------------------------------------------------------------
/// The table character of a bare glyph string, if the string is one of the
/// table's codes.
pub open spec fn glyph_char(g: Seq<char>) -> Option<char> {
    match num_of_glyphs(g) {
        Some(n) => char_of_code(n),
        None => None,
    }
}

/// The character a trimmed, nonempty token decodes to, if any: a token led by
/// the case marker decodes its remainder to the table character itself (its
/// uppercase form); a bare token decodes to the lowercase form.
pub open spec fn token_char(tt: Seq<char>) -> Option<char>
    recommends
        tt.len() > 0,
{
    if tt[0] == CASE_MARKER {
        glyph_char(tt.drop_first())
    } else {
        match glyph_char(tt) {
            Some(c) => Some(lower_char(c)),
            None => None,
        }
    }
}

/// One raw token's contribution to the decoded text: a token that trims to
/// nothing stands for one space, a recognized token for its character, an
/// unrecognized one for nothing.
pub open spec fn decode_piece(t: Seq<char>) -> Seq<char> {
    let tt = trim_spec(t);
    if tt.len() == 0 {
        seq![' ']
    } else {
        match token_char(tt) {
            Some(c) => seq![c],
            None => Seq::<char>::empty(),
        }
    }
}

/// What one raw token adds to the undecodable list: its trimmed form, when
/// that is nonempty and not recognized.
pub open spec fn undec_piece(t: Seq<char>) -> Seq<Seq<char>> {
    let tt = trim_spec(t);
    if tt.len() == 0 || token_char(tt) is Some {
        Seq::<Seq<char>>::empty()
    } else {
        seq![tt]
    }
}

/// The decoded text of one line's raw tokens, in order.
pub open spec fn decode_tokens(ts: Seq<Seq<char>>) -> Seq<char>
    decreases ts.len(),
{
    if ts.len() == 0 {
        Seq::<char>::empty()
    } else {
        decode_piece(ts[0]) + decode_tokens(ts.drop_first())
    }
}

/// The undecodable tokens of one line's raw tokens, in order.
pub open spec fn undec_tokens(ts: Seq<Seq<char>>) -> Seq<Seq<char>>
    decreases ts.len(),
{
    if ts.len() == 0 {
        Seq::<Seq<char>>::empty()
    } else {
        undec_piece(ts[0]) + undec_tokens(ts.drop_first())
    }
}

/// The decoded text of a sequence of lines: every line's tokens, split on
/// single spaces, each line closed with a newline.
pub open spec fn decode_lines(ls: Seq<Seq<char>>) -> Seq<char>
    decreases ls.len(),
{
    if ls.len() == 0 {
        Seq::<char>::empty()
    } else {
        decode_tokens(split_on(ls[0], ' ')) + seq!['\n'] + decode_lines(ls.drop_first())
    }
}

/// The undecodable tokens over a sequence of lines, in order.
pub open spec fn undec_lines(ls: Seq<Seq<char>>) -> Seq<Seq<char>>
    decreases ls.len(),
{
    if ls.len() == 0 {
        Seq::<Seq<char>>::empty()
    } else {
        undec_tokens(split_on(ls[0], ' ')) + undec_lines(ls.drop_first())
    }
}

/// The decoded text handed back: the input split into lines, every line
/// decoded token by token, and the trailing whitespace removed once at the
/// end.
pub open spec fn decode_text(s: Seq<char>) -> Seq<char> {
    trim_end_spec(decode_lines(split_on(s, '\n')))
}

/// The tokens decoding cannot recognize, over the whole input, in encounter
/// order.
pub open spec fn undecodable_of(s: Seq<char>) -> Seq<Seq<char>> {
    undec_lines(split_on(s, '\n'))
}

/// Extending a token list by one token appends that token's contributions.
pub proof fn lemma_decode_tokens_push(ts: Seq<Seq<char>>, t: Seq<char>)
    ensures
        decode_tokens(ts.push(t)) =~= decode_tokens(ts) + decode_piece(t),
        undec_tokens(ts.push(t)) =~~= undec_tokens(ts) + undec_piece(t),
    decreases ts.len(),
{
    if ts.len() == 0 {
        assert(ts.push(t)[0] == t);
        assert(ts.push(t).drop_first() =~~= Seq::<Seq<char>>::empty());
        assert(decode_tokens(Seq::<Seq<char>>::empty()) =~= Seq::<char>::empty());
        assert(undec_tokens(Seq::<Seq<char>>::empty()) =~~= Seq::<Seq<char>>::empty());
        assert(decode_tokens(ts.push(t)) =~= decode_piece(t) + decode_tokens(
            Seq::<Seq<char>>::empty(),
        ));
        assert(undec_tokens(ts.push(t)) =~~= undec_piece(t) + undec_tokens(
            Seq::<Seq<char>>::empty(),
        ));
    } else {
        assert(ts.push(t)[0] == ts[0]);
        assert(ts.push(t).drop_first() =~~= ts.drop_first().push(t));
        lemma_decode_tokens_push(ts.drop_first(), t);
        assert(decode_tokens(ts.push(t)) =~= decode_piece(ts[0]) + decode_tokens(
            ts.drop_first().push(t),
        ));
        assert(decode_tokens(ts) =~= decode_piece(ts[0]) + decode_tokens(ts.drop_first()));
        assert(undec_tokens(ts.push(t)) =~~= undec_piece(ts[0]) + undec_tokens(
            ts.drop_first().push(t),
        ));
        assert(undec_tokens(ts) =~~= undec_piece(ts[0]) + undec_tokens(ts.drop_first()));
    }
}

/// Extending a line list by one line appends that line's decoded text, closed
/// with a newline, and its undecodable tokens.
pub proof fn lemma_decode_lines_push(ls: Seq<Seq<char>>, l: Seq<char>)
    ensures
        decode_lines(ls.push(l)) =~= decode_lines(ls) + decode_tokens(split_on(l, ' '))
            + seq!['\n'],
        undec_lines(ls.push(l)) =~~= undec_lines(ls) + undec_tokens(split_on(l, ' ')),
    decreases ls.len(),
{
    if ls.len() == 0 {
        assert(ls.push(l)[0] == l);
        assert(ls.push(l).drop_first() =~~= Seq::<Seq<char>>::empty());
        assert(decode_lines(Seq::<Seq<char>>::empty()) =~= Seq::<char>::empty());
        assert(undec_lines(Seq::<Seq<char>>::empty()) =~~= Seq::<Seq<char>>::empty());
        assert(decode_lines(ls.push(l)) =~= decode_tokens(split_on(l, ' ')) + seq!['\n']
            + decode_lines(Seq::<Seq<char>>::empty()));
        assert(undec_lines(ls.push(l)) =~~= undec_tokens(split_on(l, ' ')) + undec_lines(
            Seq::<Seq<char>>::empty(),
        ));
    } else {
        assert(ls.push(l)[0] == ls[0]);
        assert(ls.push(l).drop_first() =~~= ls.drop_first().push(l));
        lemma_decode_lines_push(ls.drop_first(), l);
        assert(decode_lines(ls.push(l)) =~= decode_tokens(split_on(ls[0], ' ')) + seq!['\n']
            + decode_lines(ls.drop_first().push(l)));
        assert(decode_lines(ls) =~= decode_tokens(split_on(ls[0], ' ')) + seq!['\n']
            + decode_lines(ls.drop_first()));
        assert(undec_lines(ls.push(l)) =~~= undec_tokens(split_on(ls[0], ' ')) + undec_lines(
            ls.drop_first().push(l),
        ));
        assert(undec_lines(ls) =~~= undec_tokens(split_on(ls[0], ' ')) + undec_lines(
            ls.drop_first(),
        ));
    }
}

// ---------------------------------------------------------------------------
// Direction detection
// ---------------------------------------------------------------------------
/// The two directions the transcoder can take.
#[derive(Clone, Copy, Debug, PartialEq, Eq, Structural)]
pub enum Direction {
    Encode,
    Decode,
}

/// Which direction an input calls for: symbolic text — text whose first
/// character is a glyph, or the case marker followed by a glyph — is decoded,
/// everything else is encoded.
pub open spec fn direction_of(s: Seq<char>) -> Direction {
    if s.len() > 0 && (s[0] == DOT_GLYPH || s[0] == DASH_GLYPH) {
        Direction::Decode
    } else if s.len() > 1 && s[0] == CASE_MARKER && (s[1] == DOT_GLYPH || s[1] == DASH_GLYPH) {
        Direction::Decode
    } else {
        Direction::Encode
    }
}

/// Decides the direction for an input, by its leading characters alone.
pub fn detect_direction(input: &Vec<char>) -> (r: Direction)
    ensures
        r == direction_of(input@),
{
    if input.len() > 0 {
        let c0 = input[0];
        if c0 == DOT_GLYPH || c0 == DASH_GLYPH {
            return Direction::Decode;
        }
        if c0 == CASE_MARKER && input.len() > 1 {
            let c1 = input[1];
            if c1 == DOT_GLYPH || c1 == DASH_GLYPH {
                return Direction::Decode;
            }
        }
    }
    Direction::Encode
}

// ---------------------------------------------------------------------------
// The transcoder
// ---------------------------------------------------------------------------
/// What encoding hands back: the encoded text, and the characters the table
/// cannot map, in encounter order.
#[derive(Debug)]
pub struct EncodeOutcome {
    /// The encoded text.
    pub text: Vec<char>,
    /// The input characters without a table entry, in encounter order.
    pub unencodable: Vec<char>,
}

/// What decoding hands back: the decoded text, and the trimmed tokens the
/// table cannot map, in encounter order.
#[derive(Debug)]
pub struct DecodeOutcome {
    /// The decoded text.
    pub text: Vec<char>,
    /// The unrecognized tokens, trimmed, in encounter order.
    pub undecodable: Vec<Vec<char>>,
}

/// The result of the direction-detecting transformation.
#[derive(Debug)]
pub enum Transformed {
    Encoded(EncodeOutcome),
    Decoded(DecodeOutcome),
}

/// The transcoder. The fixed table lives in `crate::alphabet` as the spec
/// function pair `code_of` / `char_of_code`, whose exact inverseness
/// `crate::alphabet::lemma_code_inverse` states; the value itself carries no
/// state, so construction cannot fail.
pub struct CunnyCode {}

impl CunnyCode {
    /// Builds a transcoder over the fixed table.
    pub fn new() -> (r: CunnyCode) {
        CunnyCode {  }
    }

    /// Encodes `input`, character by character: newlines kept, other
    /// whitespace normalized to one space, mappable characters replaced by
    /// their space-terminated code (case-marked when uppercase), unmappable
    /// ones collected instead of emitted; the accumulated text is trimmed at
    /// its end once.
    pub fn encode(&self, input: &Vec<char>) -> (r: EncodeOutcome)
        ensures
            r.text@ == encode_text(input@),
            r.unencodable@ == unencodable_of(input@),
    {
        let mut out: Vec<char> = Vec::new();
        let mut bad: Vec<char> = Vec::new();
        let mut i: usize = 0;
        proof {
            assert(input@.take(0) =~= Seq::<char>::empty());
        }
        while i < input.len()
            invariant
                i <= input.len(),
                out@ == encode_raw(input@.take(i as int)),
                bad@ == unencodable_of(input@.take(i as int)),
            decreases input.len() - i,
        {
            let ghost pre = input@.take(i as int);
            let c = input[i];
            if c == '\n' {
                out.push('\n');
            } else if is_space(c) {
                out.push(' ');
            } else {
                let u = to_upper(c);
                let code = lookup_code(u);
                if code != 0 {
                    if upper_letter(c) {
                        out.push(CASE_MARKER);
                    }
                    push_glyphs(&mut out, code);
                    out.push(' ');
                } else {
                    bad.push(c);
                }
            }
            proof {
                lemma_encode_raw_push(pre, c);
                assert(input@.take(i as int + 1) =~= pre.push(c));
                assert(out@ =~= encode_raw(input@.take(i as int + 1)));
                assert(bad@ =~= unencodable_of(input@.take(i as int + 1)));
            }
            i = i + 1;
        }
        proof {
            assert(input@.take(input@.len() as int) =~= input@);
        }
        trim_end_vec(&mut out);
        EncodeOutcome { text: out, unencodable: bad }
    }

    /// Decodes `input`: every line is split on single spaces; a token that
    /// trims to nothing yields one space, a recognized token its character,
    /// an unrecognized one is collected; every line closes with a newline,
    /// and the accumulated text is trimmed at its end once.
    pub fn decode(&self, input: &Vec<char>) -> (r: DecodeOutcome)
        ensures
            r.text@ == decode_text(input@),
            r.undecodable.deep_view() == undecodable_of(input@),
    {
        let lines = split_char(input, '\n');
        let ghost lseq = lines.deep_view();
        let mut out: Vec<char> = Vec::new();
        let mut undec: Vec<Vec<char>> = Vec::new();
        let mut li: usize = 0;
        proof {
            assert(lseq.take(0) =~~= Seq::<Seq<char>>::empty());
        }
        while li < lines.len()
            invariant
                li <= lines.len(),
                lseq == lines.deep_view(),
                lseq == split_on(input@, '\n'),
                out@ == decode_lines(lseq.take(li as int)),
                undec.deep_view() == undec_lines(lseq.take(li as int)),
            decreases lines.len() - li,
        {
            let line = &lines[li];
            proof {
                assert(line@ == lseq[li as int]);
            }
            let tokens = split_char(line, ' ');
            let ghost tseq = tokens.deep_view();
            let mut ti: usize = 0;
            proof {
                assert(tseq.take(0) =~~= Seq::<Seq<char>>::empty());
                assert(out@ =~= decode_lines(lseq.take(li as int)) + decode_tokens(tseq.take(0)));
                assert(undec.deep_view() =~~= undec_lines(lseq.take(li as int)) + undec_tokens(
                    tseq.take(0),
                ));
            }
            while ti < tokens.len()
                invariant
                    ti <= tokens.len(),
                    li < lines.len(),
                    lseq == lines.deep_view(),
                    tseq == tokens.deep_view(),
                    tseq == split_on(lseq[li as int], ' '),
                    out@ == decode_lines(lseq.take(li as int)) + decode_tokens(
                        tseq.take(ti as int),
                    ),
                    undec.deep_view() == undec_lines(lseq.take(li as int)) + undec_tokens(
                        tseq.take(ti as int),
                    ),
                decreases tokens.len() - ti,
            {
                let ghost t = tseq[ti as int];
                let tt = trimmed(&tokens[ti]);
                proof {
                    assert(tokens[ti as int]@ == t);
                    assert(tt@ == trim_spec(t));
                }
                let ghost old_undec = undec.deep_view();
                if tt.len() == 0 {
                    out.push(' ');
                } else {
                    match decode_token(&tt) {
                        Some(c) => out.push(c),
                        None => {
                            let ghost ttv = tt@;
                            undec.push(tt);
                            proof {
                                assert(undec.deep_view() =~~= old_undec.push(ttv));
                            }
                        },
                    }
                }
                proof {
                    lemma_decode_tokens_push(tseq.take(ti as int), t);
                    assert(tseq.take(ti as int + 1) =~~= tseq.take(ti as int).push(t));
                    assert(out@ =~= decode_lines(lseq.take(li as int)) + decode_tokens(
                        tseq.take(ti as int + 1),
                    ));
                    assert(undec.deep_view() =~~= undec_lines(lseq.take(li as int))
                        + undec_tokens(tseq.take(ti as int + 1)));
                }
                ti = ti + 1;
            }
            out.push('\n');
            proof {
                assert(tseq.take(tseq.len() as int) =~~= tseq);
                lemma_decode_lines_push(lseq.take(li as int), lseq[li as int]);
                assert(lseq.take(li as int + 1) =~~= lseq.take(li as int).push(lseq[li as int]));
                assert(out@ =~= decode_lines(lseq.take(li as int + 1)));
                assert(undec.deep_view() =~~= undec_lines(lseq.take(li as int + 1)));
            }
            li = li + 1;
        }
        proof {
            assert(lseq.take(lseq.len() as int) =~~= lseq);
        }
        trim_end_vec(&mut out);
        DecodeOutcome { text: out, undecodable: undec }
    }

    /// Transforms `input` in the direction its leading characters call for.
    pub fn transform(&self, input: &Vec<char>) -> (r: Transformed)
        ensures
            direction_of(input@) == Direction::Decode ==> (r matches Transformed::Decoded(d)
                && d.text@ == decode_text(input@) && d.undecodable.deep_view() == undecodable_of(
                input@,
            )),
            direction_of(input@) == Direction::Encode ==> (r matches Transformed::Encoded(e)
                && e.text@ == encode_text(input@) && e.unencodable@ == unencodable_of(input@)),
    {
        match detect_direction(input) {
            Direction::Decode => Transformed::Decoded(self.decode(input)),
            Direction::Encode => Transformed::Encoded(self.encode(input)),
        }
    }
}

/// The character a trimmed, nonempty token decodes to, if any.
fn decode_token(tt: &Vec<char>) -> (r: Option<char>)
    requires
        tt@.len() > 0,
    ensures
        r == token_char(tt@),
{
    if tt[0] == CASE_MARKER {
        proof {
            assert(tt@.drop_first() =~= tt@.skip(1));
        }
        glyph_lookup(tt, 1)
    } else {
        proof {
            assert(tt@.skip(0) =~= tt@);
        }
        match glyph_lookup(tt, 0) {
            Some(c) => Some(to_lower(c)),
            None => None,
        }
    }
}

/// Reads the glyphs of `t` from position `start` on and looks the resulting
/// code number up in the table.
fn glyph_lookup(t: &Vec<char>, start: usize) -> (r: Option<char>)
    requires
        start <= t@.len(),
    ensures
        r == glyph_char(t@.skip(start as int)),
{
    let mut acc: u32 = 1;
    let mut k: usize = start;
    while k < t.len()
        invariant
            start <= k <= t@.len(),
            1 <= acc <= 255,
            num_rec(t@.skip(start as int), 1) == num_rec(t@.skip(k as int), acc as nat),
        decreases t@.len() - k,
    {
        proof {
            assert(t@.skip(k as int)[0] == t@[k as int]);
            assert(t@.skip(k as int).drop_first() =~= t@.skip(k as int + 1));
        }
        let c = t[k];
        let bit: u32 = if c == DOT_GLYPH {
            0
        } else if c == DASH_GLYPH {
            1
        } else {
            return None;
        };
        acc = acc * 2 + bit;
        k = k + 1;
        if acc > 255 {
            proof {
                lemma_num_rec_lower_bound(t@.skip(k as int), acc as nat);
                match num_rec(t@.skip(k as int), acc as nat) {
                    Some(m) => lemma_char_of_code_none_above(m),
                    None => {},
                }
            }
            return None;
        }
    }
    proof {
        assert(t@.skip(t@.len() as int) =~= Seq::<char>::empty());
    }
    lookup_char(acc)
}

} // verus!
