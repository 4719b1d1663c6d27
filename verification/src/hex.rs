//! Lowercase hexadecimal text, as the `data-encoding` crate writes and reads it.
use crate::text;
use data_encoding::DecodeKind;
use vstd::prelude::*;
use vstd::utf8::*;

verus! {

/// The lowercase hexadecimal digit for `n`, which is below 16.
pub open spec fn hex_digit(n: int) -> char {
    if n < 10 {
        ('0' as u32 + n) as char
    } else {
        ('a' as u32 + (n - 10)) as char
    }
}

/// The value of an ASCII hexadecimal digit of either case.
pub open spec fn hex_value(b: u8) -> Option<int> {
    if '0' as u8 <= b <= '9' as u8 {
        Some(b - '0' as u8)
    } else if 'a' as u8 <= b <= 'f' as u8 {
        Some(b - 'a' as u8 + 10)
    } else if 'A' as u8 <= b <= 'F' as u8 {
        Some(b - 'A' as u8 + 10)
    } else {
        None
    }
}

/// `bytes` in hexadecimal, two lowercase digits for each, the high one first.
pub open spec fn hex_text(bytes: Seq<u8>) -> Seq<char> {
    Seq::new(
        2 * bytes.len(),
        |i: int|
            hex_digit(
                if i % 2 == 0 {
                    bytes[i / 2] as int / 16
                } else {
                    bytes[i / 2] as int % 16
                },
            ),
    )
}

/// `s` is a sequence of pairs of hexadecimal digits.
pub open spec fn is_hex(s: Seq<u8>) -> bool {
    &&& s.len() % 2 == 0
    &&& forall|i: int| 0 <= i < s.len() ==> hex_value(#[trigger] s[i]) is Some
}

/// The bytes that the pairs of hexadecimal digits in `s` stand for.
pub open spec fn hex_bytes(s: Seq<u8>) -> Seq<u8>
    recommends
        is_hex(s),
{
    Seq::new(
        s.len() / 2,
        |i: int| (16 * hex_value(s[2 * i])->0 + hex_value(s[2 * i + 1])->0) as u8,
    )
}

/// How a text is not hexadecimal.
#[derive(Debug, Clone, Copy, PartialEq, Eq, Structural)]
pub enum HexFault {
    Length,
    Symbol,
    Trailing,
    Padding,
}

/// Where a text is not hexadecimal, and how.
#[derive(Debug, Clone, Copy, PartialEq, Eq, Structural)]
pub struct HexError {
    pub position: usize,
    pub kind: HexFault,
}

/// The number of hexadecimal digits before the first byte of `s` that is none.
pub open spec fn leading_digits(s: Seq<u8>) -> nat
    decreases s.len(),
{
    if s.len() == 0 || hex_value(s[0]) is None {
        0
    } else {
        1 + leading_digits(s.drop_first())
    }
}

/// The error that `s` gives where it is not hexadecimal: an odd length, at the last
/// byte, or else the first byte that is no hexadecimal digit.
pub open spec fn hex_error(s: Seq<u8>) -> HexError {
    if s.len() % 2 == 1 {
        HexError { position: (s.len() - 1) as usize, kind: HexFault::Length }
    } else {
        HexError { position: leading_digits(s) as usize, kind: HexFault::Symbol }
    }
}

impl HexError {
    /// The error in words.
    pub open spec fn words(self) -> Seq<char> {
        (match self.kind {
            HexFault::Length => "invalid length"@,
            HexFault::Symbol => "invalid symbol"@,
            HexFault::Trailing => "non-zero trailing bits"@,
            HexFault::Padding => "invalid padding length"@,
        }) + " at "@ + text::decimal(self.position as nat)
    }

    /// The error in words.
    pub fn message(&self) -> (r: String)
        ensures
            r@ == self.words(),
    {
        let kind: &str = match self.kind {
            HexFault::Length => "invalid length",
            HexFault::Symbol => "invalid symbol",
            HexFault::Trailing => "non-zero trailing bits",
            HexFault::Padding => "invalid padding length",
        };
        let head = text::join(kind, " at ");
        text::join(head.as_str(), text::decimal_usize(self.position).as_str())
    }
}

/// `Encoding::decode` of `data_encoding::HEXLOWER_PERMISSIVE`: the bytes that the
/// pairs of digits of either case stand for. It fails on a text of odd length,
/// with the greatest valid length as the position, and on one with another
/// character, with the first of them as the position. It panics beyond the length
/// required here.
#[verifier::external_body]
pub(crate) fn decode(s: &[u8]) -> (r: Result<Vec<u8>, HexError>)
    requires
        s@.len() <= usize::MAX / 8,
    ensures
        match r {
            Ok(v) => is_hex(s@) && v@ == hex_bytes(s@),
            Err(e) => !is_hex(s@) && e == hex_error(s@),
        },
{
    match data_encoding::HEXLOWER_PERMISSIVE.decode(s) {
        Ok(v) => Ok(v),
        Err(e) => Err(HexError {
            position: e.position,
            kind: match e.kind {
                DecodeKind::Length => HexFault::Length,
                DecodeKind::Symbol => HexFault::Symbol,
                DecodeKind::Trailing => HexFault::Trailing,
                DecodeKind::Padding => HexFault::Padding,
            },
        }),
    }
}

/// `Encoding::encode` of `data_encoding::HEXLOWER`: two lowercase digits for each
/// byte. It panics beyond the length required here.
#[verifier::external_body]
pub(crate) fn encode(bytes: &[u8]) -> (r: String)
    requires
        bytes@.len() <= usize::MAX / 512,
    ensures
        r@ == hex_text(bytes@),
{
    data_encoding::HEXLOWER.encode(bytes)
}

/// Each byte is written as two digits out of `0123456789abcdef`: the one for its sixteenth,
/// and behind it the one for the remainder. Nothing else is written.
pub proof fn law_hex_text(bytes: Seq<u8>)
    ensures
        hex_text(bytes).len() == 2 * bytes.len(),
        forall|i: int|
            0 <= i < bytes.len() ==> {
                &&& hex_text(bytes)[2 * i] == "0123456789abcdef"@[#[trigger] bytes[i] as int / 16]
                &&& hex_text(bytes)[2 * i + 1] == "0123456789abcdef"@[bytes[i] as int % 16]
            },
{
    reveal_strlit("0123456789abcdef");
    assert forall|i: int| 0 <= i < bytes.len() implies {
        &&& hex_text(bytes)[2 * i] == "0123456789abcdef"@[#[trigger] bytes[i] as int / 16]
        &&& hex_text(bytes)[2 * i + 1] == "0123456789abcdef"@[bytes[i] as int % 16]
    } by {
        let x = bytes[i] as int;
        assert((2 * i) / 2 == i && (2 * i + 1) / 2 == i && (2 * i) % 2 == 0 && (2 * i + 1) % 2
            == 1);
        lemma_digit(x / 16);
        lemma_digit(x % 16);
    }
}

proof fn lemma_digit(n: int)
    requires
        0 <= n < 16,
    ensures
        hex_digit(n) == "0123456789abcdef"@[n],
        hex_value("0123456789abcdef"@[n] as u8) == Some(n),
        hex_value("0123456789ABCDEF"@[n] as u8) == Some(n),
{
    reveal_strlit("0123456789abcdef");
    reveal_strlit("0123456789ABCDEF");
}

/// Digits of either case stand for their positions in the list of digits, and no other
/// byte stands for anything.
pub proof fn law_hex_value(n: int, b: u8)
    requires
        0 <= n < 16,
    ensures
        hex_value("0123456789abcdef"@[n] as u8) == Some(n),
        hex_value("0123456789ABCDEF"@[n] as u8) == Some(n),
        hex_value(b) matches Some(v) ==> 0 <= v < 16 && ("0123456789abcdef"@[v] as u8 == b
            || "0123456789ABCDEF"@[v] as u8 == b),
{
    reveal_strlit("0123456789abcdef");
    reveal_strlit("0123456789ABCDEF");
    lemma_digit(n);
}

/// Hexadecimal is read in pairs of digits: a text that ends in the pair for a byte stands
/// for that byte behind those of the rest, and a single digit, or a byte that is none,
/// makes a text that is not hexadecimal.
pub proof fn law_hex_pairs(s: Seq<u8>, high: u8, low: u8)
    ensures
        is_hex(Seq::<u8>::empty()),
        hex_bytes(Seq::<u8>::empty()) == Seq::<u8>::empty(),
        s.len() % 2 == 0 ==> !is_hex(s.push(high)),
        is_hex(s.push(high).push(low)) <==> is_hex(s) && hex_value(high) is Some && hex_value(
            low,
        ) is Some,
        is_hex(s.push(high).push(low)) ==> hex_bytes(s.push(high).push(low)) == hex_bytes(s).push(
            (16 * hex_value(high)->0 + hex_value(low)->0) as u8,
        ),
{
    let t = s.push(high).push(low);
    assert(hex_bytes(Seq::<u8>::empty()) =~= Seq::<u8>::empty());
    assert(t[s.len() as int] == high && t[s.len() as int + 1] == low);
    if is_hex(t) {
        assert forall|i: int| 0 <= i < s.len() implies hex_value(#[trigger] s[i]) is Some by {
            assert(t[i] == s[i]);
        }
        assert(hex_bytes(t) =~= hex_bytes(s).push(
            (16 * hex_value(high)->0 + hex_value(low)->0) as u8,
        ));
    }
    if is_hex(s) && hex_value(high) is Some && hex_value(low) is Some {
        assert forall|i: int| 0 <= i < t.len() implies hex_value(#[trigger] t[i]) is Some by {
            if i < s.len() {
                assert(t[i] == s[i]);
            }
        }
    }
}

/// The error for a text of odd length points at its last byte; that for another text that
/// is not hexadecimal points at the first byte that is no digit.
pub proof fn law_hex_error(s: Seq<u8>)
    requires
        s.len() <= usize::MAX,
        !is_hex(s),
    ensures
        s.len() % 2 == 1 ==> hex_error(s).kind == HexFault::Length && hex_error(s).position
            == s.len() - 1,
        s.len() % 2 == 0 ==> {
            &&& hex_error(s).kind == HexFault::Symbol
            &&& hex_error(s).position < s.len()
            &&& hex_value(s[hex_error(s).position as int]) is None
            &&& forall|i: int|
                0 <= i < hex_error(s).position ==> hex_value(#[trigger] s[i]) is Some
        },
{
    lemma_leading_digits(s);
}

proof fn lemma_leading_digits(s: Seq<u8>)
    ensures
        leading_digits(s) <= s.len(),
        forall|i: int| 0 <= i < leading_digits(s) ==> hex_value(#[trigger] s[i]) is Some,
        leading_digits(s) < s.len() ==> hex_value(s[leading_digits(s) as int]) is None,
    decreases s.len(),
{
    if s.len() > 0 && hex_value(s[0]) is Some {
        let rest = s.drop_first();
        lemma_leading_digits(rest);
        assert forall|i: int| 0 <= i < leading_digits(s) implies hex_value(
            #[trigger] s[i],
        ) is Some by {
            if i > 0 {
                assert(rest[i - 1] == s[i]);
            }
        }
        if leading_digits(s) < s.len() {
            assert(rest[leading_digits(rest) as int] == s[leading_digits(s) as int]);
        }
    }
}

/// The words of an error end with its position in decimal, behind the words of its kind.
pub proof fn law_hex_error_words(e: HexError)
    ensures
        e.kind == HexFault::Length ==> e.words() == "invalid length at "@ + text::decimal(
            e.position as nat,
        ),
        e.kind == HexFault::Symbol ==> e.words() == "invalid symbol at "@ + text::decimal(
            e.position as nat,
        ),
        e.kind == HexFault::Trailing ==> e.words() == "non-zero trailing bits at "@ + text::decimal(
            e.position as nat,
        ),
        e.kind == HexFault::Padding ==> e.words() == "invalid padding length at "@ + text::decimal(
            e.position as nat,
        ),
{
    reveal_strlit("invalid length at ");
    reveal_strlit("invalid symbol at ");
    reveal_strlit("invalid length");
    reveal_strlit("invalid symbol");
    reveal_strlit(" at ");
    assert("invalid length at "@ =~= "invalid length"@ + " at "@);
    assert("invalid symbol at "@ =~= "invalid symbol"@ + " at "@);
    reveal_strlit("non-zero trailing bits at ");
    reveal_strlit("invalid padding length at ");
    reveal_strlit("non-zero trailing bits");
    reveal_strlit("invalid padding length");
    assert("non-zero trailing bits at "@ =~= "non-zero trailing bits"@ + " at "@);
    assert("invalid padding length at "@ =~= "invalid padding length"@ + " at "@);
}

/// Bytes written in hexadecimal are read back, and every digit of the text is
/// `0` to `9` or `a` to `f`.
pub proof fn law_hex_round_trip(bytes: Seq<u8>)
    ensures
        is_hex(encode_utf8(hex_text(bytes))),
        hex_bytes(encode_utf8(hex_text(bytes))) == bytes,
        encode_utf8(hex_text(bytes)).len() == 2 * bytes.len(),
        forall|i: int|
            0 <= i < hex_text(bytes).len() ==> ('0' <= #[trigger] hex_text(bytes)[i] <= '9' || 'a'
                <= hex_text(bytes)[i] <= 'f'),
{
    let t = hex_text(bytes);
    let b = encode_utf8(t);
    assert forall|i: int| 0 <= i < t.len() implies ('0' <= #[trigger] t[i] <= '9' || 'a' <= t[i]
        <= 'f') by {
        let x = bytes[i / 2] as int;
        assert(0 <= x / 16 < 16 && 0 <= x % 16 < 16);
    }
    assert(is_ascii_chars(t));
    is_ascii_chars_encode_utf8(t);
    assert forall|i: int| 0 <= i < b.len() implies hex_value(#[trigger] b[i]) is Some by {
        assert(t[i] as u8 == b[i]);
    }
    assert forall|i: int| 0 <= i < bytes.len() implies hex_bytes(b)[i] == #[trigger] bytes[i] by {
        let x = bytes[i] as int;
        assert((2 * i) / 2 == i && (2 * i + 1) / 2 == i && (2 * i) % 2 == 0 && (2 * i + 1) % 2
            == 1);
        assert(t[2 * i] == hex_digit(x / 16));
        assert(t[2 * i + 1] == hex_digit(x % 16));
        assert(b[2 * i] == t[2 * i] as u8);
        assert(b[2 * i + 1] == t[2 * i + 1] as u8);
        assert(hex_value(b[2 * i]) == Some(x / 16));
        assert(hex_value(b[2 * i + 1]) == Some(x % 16));
    }
    assert(hex_bytes(b) =~= bytes);
}

} // verus!
