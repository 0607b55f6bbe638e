//! Text primitives shared by the encoders: decimal numerals and the
//! quote-doubling escape for SQL string literals.

use vstd::prelude::*;

verus! {

/// `String::push` appends its one character to the end of the string and
/// changes nothing else.
pub assume_specification[ String::push ](s: &mut String, c: char)
    ensures
        final(s)@ == old(s)@.push(c),
;

/// The text that lossy UTF-8 decoding makes of `bytes`: the characters that
/// the well-formed parts encode, with U+FFFD standing in for each malformed
/// part.
pub uninterp spec fn utf8_lossy(bytes: Seq<u8>) -> Seq<char>;

/// `String::from_utf8_lossy` decodes `bytes` as UTF-8 and puts U+FFFD where
/// they are malformed; the result is handed over as an owned string.
#[verifier::external_body]
pub(crate) fn lossy_text(bytes: &[u8]) -> (text: String)
    ensures
        text@ == utf8_lossy(bytes@),
{
    String::from_utf8_lossy(bytes).into_owned()
}

/// What one character becomes inside a single-quoted SQL literal: a quote is
/// written twice, every other character stands for itself.
pub open spec fn escaped_char(c: char) -> Seq<char> {
    if c == '\'' {
        seq!['\'', '\'']
    } else {
        seq![c]
    }
}

/// The text `s` with every single quote written twice.
pub open spec fn quote_doubled(s: Seq<char>) -> Seq<char>
    decreases s.len(),
{
    if s.len() == 0 {
        Seq::empty()
    } else {
        escaped_char(s[0]) + quote_doubled(s.drop_first())
    }
}

/// What a reader of SQL recovers from the body of a single-quoted literal:
/// two quotes in a row stand for one quote, and a quote followed by anything
/// else would end the literal early, so such a body has no value.
pub open spec fn quote_undoubled(s: Seq<char>) -> Option<Seq<char>>
    decreases s.len(),
{
    if s.len() == 0 {
        Some(Seq::empty())
    } else if s[0] != '\'' {
        match quote_undoubled(s.drop_first()) {
            Some(rest) => Some(seq![s[0]] + rest),
            None => None,
        }
    } else if s.len() >= 2 && s[1] == '\'' {
        match quote_undoubled(s.skip(2)) {
            Some(rest) => Some(seq!['\''] + rest),
            None => None,
        }
    } else {
        None
    }
}

/// Escaping a text that ends in `c` is escaping the text before it and then `c`.
pub proof fn lemma_quote_doubled_push(s: Seq<char>, c: char)
    ensures
        quote_doubled(s.push(c)) == quote_doubled(s) + escaped_char(c),
    decreases s.len(),
{
    if s.len() == 0 {
        assert(s.push(c).drop_first() =~= Seq::<char>::empty());
        assert(quote_doubled(s.push(c)) =~= escaped_char(c) + quote_doubled(Seq::empty()));
        assert(quote_doubled(s.push(c)) =~= quote_doubled(s) + escaped_char(c));
    } else {
        lemma_quote_doubled_push(s.drop_first(), c);
        assert(s.push(c).drop_first() =~= s.drop_first().push(c));
        assert(quote_doubled(s.push(c)) =~= quote_doubled(s) + escaped_char(c));
    }
}

/// Reading back an escaped text gives back the text that was escaped, whatever it holds:
/// the escaped form never ends its literal early and loses nothing.
pub proof fn lemma_escape_round_trip(s: Seq<char>)
    ensures
        quote_undoubled(quote_doubled(s)) == Some(s),
    decreases s.len(),
{
    if s.len() > 0 {
        let rest = s.drop_first();
        let tail = quote_doubled(rest);
        let whole = quote_doubled(s);
        lemma_escape_round_trip(rest);
        if s[0] == '\'' {
            assert(whole.skip(2) =~= tail);
            assert(seq!['\''] + rest =~= s);
        } else {
            assert(whole.drop_first() =~= tail);
            assert(seq![s[0]] + rest =~= s);
        }
    }
}

/// Two texts with the same escaped form are the same text.
pub proof fn lemma_escape_injective(a: Seq<char>, b: Seq<char>)
    requires
        quote_doubled(a) == quote_doubled(b),
    ensures
        a == b,
{
    lemma_escape_round_trip(a);
    lemma_escape_round_trip(b);
}

/// Escapes `s` for use inside a single-quoted SQL string literal.
pub fn escape_quotes(s: &str) -> (out: String)
    ensures
        out@ == quote_doubled(s@),
{
    let mut out = String::new();
    let chars = s.chars();
    for c in iter: chars
        invariant
            iter.seq() == s@,
            out@ == quote_doubled(s@.take(iter.index() as int)),
    {
        proof {
            let k = iter.index() as int;
            lemma_quote_doubled_push(s@.take(k), c);
            assert(s@.take(k + 1) =~= s@.take(k).push(c));
        }
        if c == '\'' {
            out.push('\'');
            out.push('\'');
        } else {
            out.push(c);
        }
        assert(out@ =~= quote_doubled(s@.take(iter.index() as int)) + escaped_char(c));
    }
    proof {
        assert(s@.take(s@.len() as int) =~= s@);
    }
    out
}

/// The character that writes the digit `d`.
pub open spec fn digit_char(d: nat) -> char
    recommends
        d < 10,
{
    if d == 0 {
        '0'
    } else if d == 1 {
        '1'
    } else if d == 2 {
        '2'
    } else if d == 3 {
        '3'
    } else if d == 4 {
        '4'
    } else if d == 5 {
        '5'
    } else if d == 6 {
        '6'
    } else if d == 7 {
        '7'
    } else if d == 8 {
        '8'
    } else {
        '9'
    }
}

/// The decimal numeral of `n`: no sign, no leading zero but for zero itself.
pub open spec fn decimal(n: nat) -> Seq<char>
    decreases n,
{
    if n < 10 {
        seq![digit_char(n)]
    } else {
        decimal(n / 10).push(digit_char(n % 10))
    }
}

fn digit(d: u64) -> (c: char)
    requires
        d < 10,
    ensures
        c == digit_char(d as nat),
{
    if d == 0 {
        '0'
    } else if d == 1 {
        '1'
    } else if d == 2 {
        '2'
    } else if d == 3 {
        '3'
    } else if d == 4 {
        '4'
    } else if d == 5 {
        '5'
    } else if d == 6 {
        '6'
    } else if d == 7 {
        '7'
    } else if d == 8 {
        '8'
    } else {
        '9'
    }
}

/// Appends the decimal numeral of `n` to `out`.
pub fn push_decimal(out: &mut String, n: u64)
    ensures
        final(out)@ == old(out)@ + decimal(n as nat),
    decreases n,
{
    if n >= 10 {
        push_decimal(out, n / 10);
    }
    out.push(digit(n % 10));
    assert(out@ =~= old(out)@ + decimal(n as nat));
}

/// Appends `s` to `out` with every single quote doubled.
pub fn push_escaped(out: &mut String, s: &str)
    ensures
        final(out)@ == old(out)@ + quote_doubled(s@),
{
    let escaped = escape_quotes(s);
    out.append(escaped.as_str());
}

/// Whether two texts are the same, character by character.
pub fn same_text(a: &str, b: &str) -> (same: bool)
    ensures
        same == (a@ == b@),
{
    let left = String::from_str(a);
    let right = String::from_str(b);
    left == right
}

} // verus!
