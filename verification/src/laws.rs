//! Laws of the transcoder: what holds of encoding and decoding together, over
//! all inputs, proved against the contracts in `crate::codec`.

use vstd::prelude::*;
use crate::alphabet::code_of;
use crate::alphabet::in_alphabet;
use crate::alphabet::lemma_code_inverse;
use crate::alphabet::lemma_space_not_encodable;
use crate::chars::is_space_char;
use crate::chars::is_upper_letter;
use crate::chars::lemma_lower_of_upper;
use crate::chars::lower_char;
use crate::chars::upper_char;
use crate::codec::decode_lines;
use crate::codec::decode_piece;
use crate::codec::decode_text;
use crate::codec::decode_tokens;
use crate::codec::direction_of;
use crate::codec::encodable;
use crate::codec::encode_piece;
use crate::codec::encode_raw;
use crate::codec::encode_text;
use crate::codec::lemma_encode_raw_push;
use crate::codec::token_char;
use crate::codec::glyph_char;
use crate::codec::undec_lines;
use crate::codec::undec_piece;
use crate::codec::undec_tokens;
use crate::codec::undecodable_of;
use crate::codec::unencodable_of;
use crate::codec::Direction;
use crate::glyphs::glyphs_of;
use crate::glyphs::lemma_glyph_num_roundtrip;
use crate::glyphs::lemma_glyphs_are_glyphs;
use crate::glyphs::lemma_glyphs_nonempty;
use crate::glyphs::CASE_MARKER;
use crate::glyphs::DASH_GLYPH;
use crate::glyphs::DOT_GLYPH;
use crate::textops::lemma_split_concat;
use crate::textops::lemma_split_no_sep;
use crate::textops::lemma_trim_end_push;
use crate::textops::split_on;
use crate::textops::trim_end_spec;
use crate::textops::trim_spec;

verus! {

/// The token a mappable character encodes to, without its separating space:
/// the case marker when the character is an uppercase letter, then the glyphs
/// of its code.
pub open spec fn token_of(c: char) -> Seq<char> {
    (if is_upper_letter(c) {
        seq![CASE_MARKER]
    } else {
        Seq::<char>::empty()
    }) + glyphs_of(code_of(upper_char(c)) as nat)
}

/// Text that encoding maps without loss: every character is mappable or a
/// single space.
pub open spec fn codeable_text(s: Seq<char>) -> bool {
    forall|i: int| 0 <= i < s.len() ==> encodable(s[i]) || s[i] == ' '
}

/// Spaces stand alone and inside only: no leading space, no trailing space,
/// no two spaces side by side.
pub open spec fn single_spaced(s: Seq<char>) -> bool {
    &&& s.len() > 0 ==> s[0] != ' ' && s.last() != ' '
    &&& forall|i: int| 0 <= i < s.len() - 1 ==> !((#[trigger] s[i]) == ' ' && s[i + 1] == ' ')
}

/// What the token of a mappable character looks like, and that decoding
/// recognizes it as exactly that character.
proof fn lemma_token_of(c: char)
    requires
        encodable(c),
    ensures
        !is_space_char(c),
        c != '\n',
        encode_piece(c) == token_of(c) + seq![' '],
        token_of(c).len() >= 1,
        forall|i: int|
            0 <= i < token_of(c).len() ==> !is_space_char(token_of(c)[i]) && token_of(c)[i] != ' '
                && token_of(c)[i] != '\n',
        token_of(c).last() == DOT_GLYPH || token_of(c).last() == DASH_GLYPH,
        is_upper_letter(c) ==> token_of(c)[0] == CASE_MARKER && token_of(c).len() >= 2 && (token_of(
            c,
        )[1] == DOT_GLYPH || token_of(c)[1] == DASH_GLYPH),
        !is_upper_letter(c) ==> token_of(c)[0] == DOT_GLYPH || token_of(c)[0] == DASH_GLYPH,
        token_char(token_of(c)) == Some(c),
        trim_spec(token_of(c)) == token_of(c),
{
    if is_space_char(c) {
        lemma_space_not_encodable(c);
    }
    let u = upper_char(c);
    let n = code_of(u) as nat;
    lemma_code_inverse(u);
    lemma_glyphs_nonempty(n);
    lemma_glyphs_are_glyphs(n);
    lemma_glyph_num_roundtrip(n);
    let g = glyphs_of(n);
    let tok = token_of(c);
    assert(tok.last() == g.last());
    assert(g.last() == g[g.len() - 1]);
    assert(g[0] == DOT_GLYPH || g[0] == DASH_GLYPH);
    if is_upper_letter(c) {
        assert(tok[1] == g[0]);
    } else {
        assert(tok[0] == g[0]);
    }
    assert forall|i: int| 0 <= i < tok.len() implies !is_space_char(tok[i]) && tok[i] != ' '
        && tok[i] != '\n' by {
        if is_upper_letter(c) {
            if i == 0 {
                assert(tok[i] == CASE_MARKER);
            } else {
                assert(tok[i] == g[i - 1]);
            }
        } else {
            assert(tok[i] == g[i]);
        }
    }
    assert(encode_piece(c) =~= tok + seq![' ']);
    if is_upper_letter(c) {
        assert(upper_char(c) == c);
        assert(tok[0] == CASE_MARKER);
        assert(tok.drop_first() =~= g);
        assert(glyph_char(g) == Some(u));
        assert(token_char(tok) == Some(c));
    } else {
        assert(tok =~= g);
        assert(tok[0] == g[0]);
        assert(tok[0] != CASE_MARKER);
        assert(glyph_char(tok) == Some(u));
        lemma_lower_of_upper(c);
        assert(token_char(tok) == Some(lower_char(u)));
    }
    assert(trim_spec(tok) == tok) by {
        crate::textops::lemma_trim_noop(tok);
    }
}

/// The raw encoding of loss-free text holds no newline.
proof fn lemma_encode_raw_no_newline(s: Seq<char>)
    requires
        codeable_text(s),
    ensures
        forall|i: int| 0 <= i < encode_raw(s).len() ==> encode_raw(s)[i] != '\n',
    decreases s.len(),
{
    if s.len() > 0 {
        assert(codeable_text(s.drop_first())) by {
            assert(forall|i: int|
                0 <= i < s.drop_first().len() ==> s.drop_first()[i] == s[i + 1]);
        }
        lemma_encode_raw_no_newline(s.drop_first());
        let p = encode_piece(s[0]);
        assert forall|i: int| 0 <= i < p.len() implies p[i] != '\n' by {
            if s[0] == ' ' {
                assert(p =~= seq![' ']);
            } else {
                lemma_token_of(s[0]);
                if i < token_of(s[0]).len() {
                    assert(p[i] == token_of(s[0])[i]);
                } else {
                    assert(p[i] == ' ');
                }
            }
        }
        assert forall|i: int| 0 <= i < encode_raw(s).len() implies encode_raw(s)[i] != '\n' by {
            if i < p.len() {
                assert(encode_raw(s)[i] == p[i]);
            } else {
                assert(encode_raw(s)[i] == encode_raw(s.drop_first())[i - p.len()]);
            }
        }
    }
}

/// Decoding the raw encoding of loss-free text, with anything appended after
/// it, yields the text followed by the decoding of what was appended; no
/// token of the encoding goes unrecognized.
proof fn lemma_decode_of_encoded_prefix(v: Seq<char>, w: Seq<char>)
    requires
        codeable_text(v),
    ensures
        decode_tokens(split_on(encode_raw(v) + w, ' ')) =~= v + decode_tokens(split_on(w, ' ')),
        undec_tokens(split_on(encode_raw(v) + w, ' ')) =~~= undec_tokens(split_on(w, ' ')),
    decreases v.len(),
{
    if v.len() == 0 {
        assert(encode_raw(v) + w =~= w);
    } else {
        let c = v[0];
        let rest = v.drop_first();
        assert(codeable_text(rest)) by {
            assert(forall|i: int| 0 <= i < rest.len() ==> rest[i] == v[i + 1]);
        }
        lemma_decode_of_encoded_prefix(rest, w);
        let tailseq = encode_raw(rest) + w;
        if c == ' ' {
            assert(encode_piece(c) =~= seq![' ']);
            assert(encode_raw(v) + w =~= Seq::<char>::empty() + seq![' '] + tailseq);
            lemma_split_concat(Seq::<char>::empty(), tailseq, ' ');
            let pieces = split_on(encode_raw(v) + w, ' ');
            assert(pieces =~~= seq![Seq::<char>::empty()] + split_on(tailseq, ' '));
            assert(pieces[0] =~= Seq::<char>::empty());
            assert(pieces.drop_first() =~~= split_on(tailseq, ' '));
            assert(decode_piece(Seq::<char>::empty()) =~= seq![' ']);
            assert(undec_piece(Seq::<char>::empty()) =~~= Seq::<Seq<char>>::empty());
            assert(decode_tokens(pieces) =~= seq![' '] + decode_tokens(split_on(tailseq, ' ')));
            assert(undec_tokens(pieces) =~~= undec_tokens(split_on(tailseq, ' ')));
            assert(decode_tokens(pieces) =~= v + decode_tokens(split_on(w, ' ')));
        } else {
            lemma_token_of(c);
            let tok = token_of(c);
            assert(encode_raw(v) + w =~= tok + seq![' '] + tailseq);
            lemma_split_concat(tok, tailseq, ' ');
            lemma_split_no_sep(tok, ' ');
            let pieces = split_on(encode_raw(v) + w, ' ');
            assert(pieces =~~= seq![tok] + split_on(tailseq, ' '));
            assert(pieces[0] =~= tok);
            assert(pieces.drop_first() =~~= split_on(tailseq, ' '));
            assert(decode_piece(tok) =~= seq![c]);
            assert(undec_piece(tok) =~~= Seq::<Seq<char>>::empty());
            assert(decode_tokens(pieces) =~= seq![c] + decode_tokens(split_on(tailseq, ' ')));
            assert(undec_tokens(pieces) =~~= undec_tokens(split_on(tailseq, ' ')));
            assert(decode_tokens(pieces) =~= v + decode_tokens(split_on(w, ' ')));
        }
    }
}

/// Round trip: encoding a single-line text of mappable characters with single
/// interior spaces and decoding the result reproduces the text exactly, with
/// nothing left undecodable.
pub proof fn law_round_trip(s: Seq<char>)
    requires
        codeable_text(s),
        single_spaced(s),
    ensures
        decode_text(encode_text(s)) == s,
        undecodable_of(encode_text(s)) == Seq::<Seq<char>>::empty(),
{
    if s.len() == 0 {
        assert(encode_raw(s) =~= Seq::<char>::empty());
        assert(trim_end_spec(Seq::<char>::empty()) =~= Seq::<char>::empty());
        lemma_split_no_sep(Seq::<char>::empty(), '\n');
        lemma_split_no_sep(Seq::<char>::empty(), ' ');
        let lines = split_on(Seq::<char>::empty(), '\n');
        assert(lines =~~= seq![Seq::<char>::empty()]);
        assert(lines[0] =~= Seq::<char>::empty());
        assert(lines.drop_first() =~~= Seq::<Seq<char>>::empty());
        let toks = split_on(Seq::<char>::empty(), ' ');
        assert(toks =~~= seq![Seq::<char>::empty()]);
        assert(toks[0] =~= Seq::<char>::empty());
        assert(toks.drop_first() =~~= Seq::<Seq<char>>::empty());
        assert(decode_piece(Seq::<char>::empty()) =~= seq![' ']);
        assert(decode_tokens(Seq::<Seq<char>>::empty()) =~= Seq::<char>::empty());
        assert(undec_tokens(Seq::<Seq<char>>::empty()) =~~= Seq::<Seq<char>>::empty());
        assert(decode_lines(Seq::<Seq<char>>::empty()) =~= Seq::<char>::empty());
        assert(undec_lines(Seq::<Seq<char>>::empty()) =~~= Seq::<Seq<char>>::empty());
        assert(decode_tokens(toks) =~= seq![' ']);
        assert(undec_piece(Seq::<char>::empty()) =~~= Seq::<Seq<char>>::empty());
        assert(undec_tokens(toks) =~~= Seq::<Seq<char>>::empty());
        assert(decode_lines(lines) =~= seq![' ', '\n']);
        assert(undec_lines(lines) =~~= Seq::<Seq<char>>::empty());
        assert(seq![' ', '\n'].drop_last() =~= seq![' ']);
        assert(seq![' '].drop_last() =~= Seq::<char>::empty());
        assert(trim_end_spec(Seq::<char>::empty()) =~= Seq::<char>::empty());
        assert(trim_end_spec(seq![' ']) =~= Seq::<char>::empty());
        assert(trim_end_spec(seq![' ', '\n']) =~= Seq::<char>::empty());
    } else {
        let last = s.last();
        let init = s.drop_last();
        assert(encodable(last));
        assert(codeable_text(init)) by {
            assert(forall|i: int| 0 <= i < init.len() ==> init[i] == s[i]);
        }
        assert(s =~= init.push(last));
        lemma_encode_raw_push(init, last);
        lemma_token_of(last);
        let tok = token_of(last);
        let body = encode_raw(init) + tok;
        assert(encode_raw(s) =~= body.push(' '));
        lemma_trim_end_push(body, ' ');
        assert(body.len() > 0);
        assert(body.last() == tok.last());
        assert(!is_space_char(body.last()));
        assert(trim_end_spec(body) == body);
        assert(encode_text(s) == body);
        lemma_encode_raw_no_newline(init);
        assert(forall|i: int| 0 <= i < body.len() ==> body[i] != '\n') by {
            assert(forall|i: int|
                0 <= i < body.len() && i < encode_raw(init).len() ==> body[i] == encode_raw(
                    init,
                )[i]);
            assert(forall|i: int|
                encode_raw(init).len() <= i < body.len() ==> body[i] == tok[i - encode_raw(
                    init,
                ).len()]);
        }
        lemma_split_no_sep(body, '\n');
        let lines = split_on(body, '\n');
        assert(lines =~~= seq![body]);
        assert(lines[0] =~= body);
        assert(lines.drop_first() =~~= Seq::<Seq<char>>::empty());
        lemma_decode_of_encoded_prefix(init, tok);
        lemma_split_no_sep(tok, ' ');
        let toks = split_on(tok, ' ');
        assert(toks =~~= seq![tok]);
        assert(toks[0] =~= tok);
        assert(toks.drop_first() =~~= Seq::<Seq<char>>::empty());
        assert(decode_piece(tok) =~= seq![last]);
        assert(undec_piece(tok) =~~= Seq::<Seq<char>>::empty());
        assert(decode_tokens(Seq::<Seq<char>>::empty()) =~= Seq::<char>::empty());
        assert(undec_tokens(Seq::<Seq<char>>::empty()) =~~= Seq::<Seq<char>>::empty());
        assert(decode_lines(Seq::<Seq<char>>::empty()) =~= Seq::<char>::empty());
        assert(undec_lines(Seq::<Seq<char>>::empty()) =~~= Seq::<Seq<char>>::empty());
        assert(decode_tokens(toks) =~= seq![last]);
        assert(undec_tokens(toks) =~~= Seq::<Seq<char>>::empty());
        assert(decode_tokens(split_on(body, ' ')) =~= init + seq![last]);
        assert(undec_tokens(split_on(body, ' ')) =~~= Seq::<Seq<char>>::empty());
        assert(decode_lines(lines) =~= s.push('\n'));
        assert(undec_lines(lines) =~~= Seq::<Seq<char>>::empty());
        lemma_trim_end_push(s, '\n');
        assert(!is_space_char(last)) by {
            lemma_token_of(last);
        }
        assert(trim_end_spec(s) == s);
        assert(decode_text(encode_text(s)) == s);
        assert(undecodable_of(encode_text(s)) =~~= Seq::<Seq<char>>::empty());
    }
}

/// Bijection on single characters: each mappable character encodes to one
/// token, and decoding that token restores the uppercase form when the
/// character was an uppercase letter and the lowercase form otherwise — which
/// for every table character other than a letter is the character itself.
pub proof fn law_single_char_bijection(c: char)
    requires
        in_alphabet(c),
    ensures
        is_upper_letter(c) ==> decode_text(encode_text(seq![c])) == seq![c],
        !is_upper_letter(c) ==> decode_text(encode_text(seq![c])) == seq![lower_char(c)],
{
    assert(upper_char(c) == c);
    assert(encodable(c));
    assert(codeable_text(seq![c]));
    assert(seq![c][0] == c);
    assert(seq![c].last() == c);
    law_round_trip(seq![c]);
    if !is_upper_letter(c) {
        assert(lower_char(c) == c);
    }
}

/// Raw encoding works piecewise: a concatenated input encodes to the
/// concatenation of the encodings, and the unmappable characters line up the
/// same way.
proof fn lemma_encode_raw_concat(a: Seq<char>, b: Seq<char>)
    ensures
        encode_raw(a + b) =~= encode_raw(a) + encode_raw(b),
        unencodable_of(a + b) =~= unencodable_of(a) + unencodable_of(b),
    decreases a.len(),
{
    if a.len() == 0 {
        assert(a + b =~= b);
        assert(encode_raw(a) =~= Seq::<char>::empty());
        assert(unencodable_of(a) =~= Seq::<char>::empty());
    } else {
        assert((a + b)[0] == a[0]);
        assert((a + b).drop_first() =~= a.drop_first() + b);
        lemma_encode_raw_concat(a.drop_first(), b);
        assert(encode_raw(a + b) =~= encode_piece(a[0]) + encode_raw(a.drop_first() + b));
        assert(encode_raw(a) =~= encode_piece(a[0]) + encode_raw(a.drop_first()));
        assert(unencodable_of(a + b) =~= (if a[0] != '\n' && !is_space_char(a[0]) && !encodable(
            a[0],
        ) {
            seq![a[0]]
        } else {
            Seq::<char>::empty()
        }) + unencodable_of(a.drop_first() + b));
        assert(unencodable_of(a) =~= (if a[0] != '\n' && !is_space_char(a[0]) && !encodable(a[0]) {
            seq![a[0]]
        } else {
            Seq::<char>::empty()
        }) + unencodable_of(a.drop_first()));
    }
}

/// An unmappable character leaves no trace in the encoded text — encoding is
/// the same as if the character were absent — and the character is collected
/// for the diagnostic instead.
pub proof fn law_unmappable_omitted(s: Seq<char>, i: int)
    requires
        0 <= i < s.len(),
        s[i] != '\n',
        !is_space_char(s[i]),
        !encodable(s[i]),
    ensures
        encode_text(s) == encode_text(s.remove(i)),
        unencodable_of(s).contains(s[i]),
{
    let c = s[i];
    let a = s.take(i);
    let b = s.skip(i + 1);
    assert(s =~= a + seq![c] + b);
    assert(s.remove(i) =~= a + b);
    lemma_encode_raw_concat(a + seq![c], b);
    lemma_encode_raw_concat(a, seq![c]);
    lemma_encode_raw_concat(a, b);
    assert(seq![c][0] == c);
    assert(seq![c].drop_first() =~= Seq::<char>::empty());
    assert(encode_raw(Seq::<char>::empty()) =~= Seq::<char>::empty());
    assert(unencodable_of(Seq::<char>::empty()) =~= Seq::<char>::empty());
    assert(encode_piece(c) =~= Seq::<char>::empty());
    assert(encode_raw(seq![c]) =~= Seq::<char>::empty());
    assert(unencodable_of(seq![c]) =~= seq![c]);
    assert(encode_raw(s) =~= encode_raw(a + seq![c]) + encode_raw(b));
    assert(encode_raw(a + seq![c]) =~= encode_raw(a));
    assert(encode_raw(s) =~= encode_raw(s.remove(i)));
    assert(encode_text(s) == encode_text(s.remove(i)));
    assert(unencodable_of(s) =~= unencodable_of(a) + seq![c] + unencodable_of(b));
    assert(unencodable_of(s)[unencodable_of(a).len() as int] == c);
    assert(unencodable_of(s).contains(c));
}

/// How many newlines a text holds.
pub open spec fn newline_count(s: Seq<char>) -> nat
    decreases s.len(),
{
    if s.len() == 0 {
        0
    } else {
        (if s[0] == '\n' {
            1nat
        } else {
            0nat
        }) + newline_count(s.drop_first())
    }
}

/// Newlines add up over concatenation.
proof fn lemma_newline_count_concat(a: Seq<char>, b: Seq<char>)
    ensures
        newline_count(a + b) == newline_count(a) + newline_count(b),
    decreases a.len(),
{
    if a.len() == 0 {
        assert(a + b =~= b);
    } else {
        assert((a + b)[0] == a[0]);
        assert((a + b).drop_first() =~= a.drop_first() + b);
        lemma_newline_count_concat(a.drop_first(), b);
    }
}

/// A text without newlines counts none.
proof fn lemma_newline_count_zero(s: Seq<char>)
    requires
        forall|i: int| 0 <= i < s.len() ==> s[i] != '\n',
    ensures
        newline_count(s) == 0,
    decreases s.len(),
{
    if s.len() > 0 {
        assert(forall|i: int| 0 <= i < s.drop_first().len() ==> s.drop_first()[i] == s[i + 1]);
        lemma_newline_count_zero(s.drop_first());
    }
}

/// Newline preservation: before the final trim, the encoded text holds
/// exactly as many newlines as the input — every input newline is copied and
/// nothing else ever emits one.
pub proof fn law_newline_preservation(s: Seq<char>)
    ensures
        newline_count(encode_raw(s)) == newline_count(s),
    decreases s.len(),
{
    if s.len() > 0 {
        let c = s[0];
        law_newline_preservation(s.drop_first());
        lemma_newline_count_concat(encode_piece(c), encode_raw(s.drop_first()));
        assert(newline_count(encode_piece(c)) == (if c == '\n' {
            1nat
        } else {
            0nat
        })) by {
            if c == '\n' {
                assert(encode_piece(c) =~= seq!['\n']);
                assert(seq!['\n'].drop_first() =~= Seq::<char>::empty());
                assert(newline_count(Seq::<char>::empty()) == 0);
            } else if is_space_char(c) {
                assert(encode_piece(c) =~= seq![' ']);
                assert(seq![' '].drop_first() =~= Seq::<char>::empty());
                assert(newline_count(Seq::<char>::empty()) == 0);
            } else if encodable(c) {
                lemma_token_of(c);
                assert(forall|i: int|
                    0 <= i < encode_piece(c).len() ==> encode_piece(c)[i] != '\n') by {
                    assert(encode_piece(c) == token_of(c) + seq![' ']);
                    assert(forall|i: int|
                        0 <= i < token_of(c).len() ==> encode_piece(c)[i] == token_of(c)[i]);
                    assert(encode_piece(c)[token_of(c).len() as int] == ' ');
                }
                lemma_newline_count_zero(encode_piece(c));
            } else {
                assert(encode_piece(c) =~= Seq::<char>::empty());
            }
        }
    }
}

/// Auto-detection closes the loop: the encoding of an input that starts with
/// a mappable character begins with a glyph, or with the case marker and then
/// a glyph, so the top-level transformation routes it to decoding.
pub proof fn law_encoded_input_decodes(s: Seq<char>)
    requires
        s.len() > 0,
        encodable(s[0]),
    ensures
        direction_of(encode_text(s)) == Direction::Decode,
{
    let c = s[0];
    lemma_token_of(c);
    let tok = token_of(c);
    let raw = encode_raw(s);
    assert(raw =~= encode_piece(c) + encode_raw(s.drop_first()));
    assert(encode_piece(c) == tok + seq![' ']);
    assert(raw[0] == tok[0]);
    assert(!is_space_char(raw[0]));
    crate::textops::lemma_trim_end_prefix(raw);
    crate::textops::lemma_trim_end_keeps(raw, 0);
    if is_upper_letter(c) {
        assert(raw[1] == tok[1]);
        assert(!is_space_char(raw[1]));
        crate::textops::lemma_trim_end_keeps(raw, 1);
        assert(encode_text(s)[1] == raw[1]);
    }
    assert(encode_text(s)[0] == raw[0]);
}

} // verus!
