//! Small text helpers shared by the protocol code.
use vstd::prelude::*;

verus! {

/// Relies on `String::push`: the character is appended at the end.
#[verifier::external_body]
pub(crate) fn push_char(s: &mut String, c: char)
    ensures
        final(s)@ == old(s)@.push(c),
{
    s.push(c)
}

/// The lowercase hexadecimal digit of `n`, `n < 16`.
pub open spec fn hex_digit(n: u8) -> char {
    if n < 10 {
        (48 + n) as char
    } else {
        (87 + n) as char
    }
}

/// Two lowercase hex digits per byte, high nibble first.
pub open spec fn hex_of(b: Seq<u8>) -> Seq<char> {
    Seq::new(
        2 * b.len(),
        |i: int|
            if i % 2 == 0 {
                hex_digit(b[i / 2] / 16)
            } else {
                hex_digit(b[i / 2] % 16)
            },
    )
}

pub open spec fn is_lower_hex_char(c: char) -> bool {
    ('0' <= c && c <= '9') || ('a' <= c && c <= 'f')
}

/// The value of a hexadecimal digit (either case).
pub open spec fn hex_value(c: char) -> Option<u8> {
    if '0' <= c && c <= '9' {
        Some((c as u32 - 48) as u8)
    } else if 'a' <= c && c <= 'f' {
        Some((c as u32 - 87) as u8)
    } else if 'A' <= c && c <= 'F' {
        Some((c as u32 - 55) as u8)
    } else {
        None
    }
}

/// The bytes that a hex string spells, if it is one.
pub open spec fn decode_hex(s: Seq<char>) -> Option<Seq<u8>> {
    if s.len() % 2 == 0 && (forall|i: int| 0 <= i < s.len() ==> (#[trigger] hex_value(s[i])) is Some) {
        Some(
            Seq::new(
                s.len() / 2,
                |k: int| (16 * hex_value(s[2 * k])->0 + hex_value(s[2 * k + 1])->0) as u8,
            ),
        )
    } else {
        None
    }
}

pub fn hex_char(n: u8) -> (c: char)
    requires
        n < 16,
    ensures
        c == hex_digit(n),
{
    if n < 10 {
        (48 + n) as char
    } else {
        (87 + n) as char
    }
}

fn hex_val(c: char) -> (r: Option<u8>)
    ensures
        r == hex_value(c),
{
    if '0' <= c && c <= '9' {
        Some((c as u32 - 48) as u8)
    } else if 'a' <= c && c <= 'f' {
        Some((c as u32 - 87) as u8)
    } else if 'A' <= c && c <= 'F' {
        Some((c as u32 - 55) as u8)
    } else {
        None
    }
}

/// Lowercase hex rendering of `b`.
pub fn to_hex(b: &[u8]) -> (r: String)
    requires
        b@.len() <= usize::MAX / 2,
    ensures
        r@ == hex_of(b@),
{
    let mut r = String::new();
    let mut i: usize = 0;
    while i < b.len()
        invariant
            i <= b@.len(),
            r@ == hex_of(b@.take(i as int)),
        decreases b@.len() - i,
    {
        push_char(&mut r, hex_char(b[i] / 16));
        push_char(&mut r, hex_char(b[i] % 16));
        i = i + 1;
        assert(r@ =~= hex_of(b@.take(i as int)));
    }
    assert(b@.take(b@.len() as int) =~= b@);
    r
}

/// The bytes spelled by a hex string of either case; `None` when `s` has odd
/// length or a character that is not a hex digit.
pub fn parse_hex(s: &str) -> (r: Option<Vec<u8>>)
    ensures
        r matches Some(v) ==> decode_hex(s@) == Some(v@),
        r is None ==> decode_hex(s@) is None,
{
    let n = s.unicode_len();
    if n % 2 != 0 {
        return None;
    }
    let mut out: Vec<u8> = Vec::new();
    let mut k: usize = 0;
    while k < n / 2
        invariant
            n == s@.len(),
            n % 2 == 0,
            k <= n / 2,
            forall|i: int| 0 <= i < 2 * k ==> (#[trigger] hex_value(s@[i])) is Some,
            out@ == Seq::new(
                k as nat,
                |j: int| (16 * hex_value(s@[2 * j])->0 + hex_value(s@[2 * j + 1])->0) as u8,
            ),
        decreases n / 2 - k,
    {
        let hi = hex_val(s.get_char(2 * k));
        let lo = hex_val(s.get_char(2 * k + 1));
        match (hi, lo) {
            (Some(h), Some(l)) => {
                out.push(16 * h + l);
                k = k + 1;
                assert forall|i: int| 0 <= i < 2 * k implies (#[trigger] hex_value(s@[i])) is Some by {
                    if i >= 2 * k - 2 {
                        assert(i == 2 * k - 2 || i == 2 * k - 1);
                    }
                }
                assert(out@ =~= Seq::new(
                    k as nat,
                    |j: int| (16 * hex_value(s@[2 * j])->0 + hex_value(s@[2 * j + 1])->0) as u8,
                ));
            },
            _ => {
                assert(hex_value(s@[2 * k as int]) is None || hex_value(s@[2 * k + 1]) is None);
                return None;
            },
        }
    }
    Some(out)
}

/// Hex rendering is undone by hex parsing.
pub proof fn lemma_hex_round_trip(b: Seq<u8>)
    ensures
        decode_hex(hex_of(b)) == Some(b),
{
    let s = hex_of(b);
    assert forall|i: int| 0 <= i < s.len() implies (#[trigger] hex_value(s[i])) is Some by {
        lemma_digit_value(if i % 2 == 0 { b[i / 2] / 16 } else { b[i / 2] % 16 });
    }
    assert forall|k: int| 0 <= k < b.len() implies (16 * hex_value(s[2 * k])->0 + hex_value(
        s[2 * k + 1],
    )->0) as u8 == b[k] by {
        lemma_digit_value(b[k] / 16);
        lemma_digit_value(b[k] % 16);
        assert((2 * k + 1) / 2 == k);
        assert((2 * k) / 2 == k);
    }
    assert(decode_hex(s)->0 =~= b);
}

/// Every character of a hex rendering is a lowercase hex digit.
pub proof fn lemma_hex_lowercase(b: Seq<u8>)
    ensures
        hex_of(b).len() == 2 * b.len(),
        forall|i: int| 0 <= i < hex_of(b).len() ==> is_lower_hex_char(#[trigger] hex_of(b)[i]),
{
    assert forall|i: int| 0 <= i < hex_of(b).len() implies is_lower_hex_char(
        #[trigger] hex_of(b)[i],
    ) by {
        lemma_digit_value(if i % 2 == 0 { b[i / 2] / 16 } else { b[i / 2] % 16 });
    }
}

proof fn lemma_digit_value(n: u8)
    requires
        n < 16,
    ensures
        hex_value(hex_digit(n)) == Some(n),
        is_lower_hex_char(hex_digit(n)),
{
}

} // verus!
