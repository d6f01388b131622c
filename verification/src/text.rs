//! Text-level helpers shared by the renderers: decimal digits, facts about
//! UTF-8 encoding, and conversion of accumulated bytes into a `String`.

use vstd::prelude::*;
use vstd::utf8::{decode_utf8, encode_utf8, is_ascii_chars, valid_utf8};
use crate::sink::RenderError;

verus! {

/// The character for the last decimal digit of `d`.
pub open spec fn digit_char(d: nat) -> char {
    ((48 + d % 10) as u8) as char
}

/// The decimal digits of `n`, most significant first.
pub open spec fn dec_chars(n: nat) -> Seq<char>
    decreases n,
{
    if n < 10 {
        seq![digit_char(n)]
    } else {
        dec_chars(n / 10).push(digit_char(n % 10))
    }
}

/// UTF-8 encoding distributes over concatenation of character sequences.
pub proof fn lemma_encode_utf8_concat(a: Seq<char>, b: Seq<char>)
    ensures
        encode_utf8(a + b) == encode_utf8(a) + encode_utf8(b),
    decreases a.len(),
{
    if a.len() == 0 {
        assert(a + b =~= b);
        assert(encode_utf8(a) + encode_utf8(b) =~= encode_utf8(b));
    } else {
        assert((a + b).drop_first() =~= a.drop_first() + b);
        lemma_encode_utf8_concat(a.drop_first(), b);
        assert(encode_utf8(a + b) =~= encode_utf8(a) + encode_utf8(b));
    }
}

/// Appends the UTF-8 bytes of the decimal rendering of `n` to a buffer.
pub(crate) fn push_decimal(out: &mut Vec<u8>, n: usize)
    ensures
        final(out)@ == old(out)@ + encode_utf8(dec_chars(n as nat)),
    decreases n,
{
    if n < 10 {
        out.push(48 + (n as u8));
        proof {
            let c = digit_char(n as nat);
            let s = seq![c];
            assert(is_ascii_chars(s)) by {
                assert('\0' <= c <= '\u{7f}');
            }
            vstd::utf8::is_ascii_chars_encode_utf8(s);
            assert(encode_utf8(s) =~= seq![(48 + n) as u8]);
            assert(s.drop_first() =~= Seq::<char>::empty());
            assert(final(out)@ =~= old(out)@ + encode_utf8(dec_chars(n as nat)));
        }
    } else {
        push_decimal(out, n / 10);
        out.push(48 + ((n % 10) as u8));
        proof {
            let c = digit_char(n as nat % 10);
            let s = seq![c];
            assert(is_ascii_chars(s)) by {
                assert('\0' <= c <= '\u{7f}');
            }
            vstd::utf8::is_ascii_chars_encode_utf8(s);
            assert(encode_utf8(s) =~= seq![(48 + n % 10) as u8]);
            assert(dec_chars(n as nat) =~= dec_chars(n as nat / 10) + s);
            lemma_encode_utf8_concat(dec_chars(n as nat / 10), s);
            assert(final(out)@ =~= old(out)@ + encode_utf8(dec_chars(n as nat)));
        }
    }
}

/// The uppercased form of a character sequence, as `str::to_uppercase`
/// computes it: a function of the characters alone.
pub uninterp spec fn upper_of(s: Seq<char>) -> Seq<char>;

/// Relies on `str::to_uppercase`: the result depends on the characters
/// alone.
#[verifier::external_body]
pub(crate) fn to_uppercase(s: &str) -> (r: String)
    ensures
        r@ == upper_of(s@),
{
    s.to_uppercase()
}

/// Relies on `String::from_utf8`: it returns the string the bytes decode to
/// when they are valid UTF-8, and an error otherwise.
#[verifier::external_body]
pub(crate) fn bytes_to_string(bytes: Vec<u8>) -> (r: Result<String, RenderError>)
    ensures
        r matches Ok(s) ==> valid_utf8(bytes@) && s@ == decode_utf8(bytes@),
        r matches Err(e) ==> e is InvalidUtf8 && !valid_utf8(bytes@),
        r is Ok <==> valid_utf8(bytes@),
{
    match String::from_utf8(bytes) {
        Ok(s) => Ok(s),
        Err(_) => Err(RenderError::InvalidUtf8),
    }
}

} // verus!
