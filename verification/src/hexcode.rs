//! Hex encoding of binary keys.
//!
//! Decryption keys travel inside the user-facing credential as uppercase
//! hex. Decoding accepts both cases, as the key may be re-typed by hand.

use vstd::prelude::*;

verus! {

/// The uppercase hex digit for a value below 16.
pub open spec fn hex_digit_char(n: u8) -> char
    recommends
        n < 16,
{
    if n == 0 {
        '0'
    } else if n == 1 {
        '1'
    } else if n == 2 {
        '2'
    } else if n == 3 {
        '3'
    } else if n == 4 {
        '4'
    } else if n == 5 {
        '5'
    } else if n == 6 {
        '6'
    } else if n == 7 {
        '7'
    } else if n == 8 {
        '8'
    } else if n == 9 {
        '9'
    } else if n == 10 {
        'A'
    } else if n == 11 {
        'B'
    } else if n == 12 {
        'C'
    } else if n == 13 {
        'D'
    } else if n == 14 {
        'E'
    } else {
        'F'
    }
}

/// The value of one hex digit, either case.
pub open spec fn hex_val(c: char) -> Option<u8> {
    if c == '0' {
        Some(0u8)
    } else if c == '1' {
        Some(1u8)
    } else if c == '2' {
        Some(2u8)
    } else if c == '3' {
        Some(3u8)
    } else if c == '4' {
        Some(4u8)
    } else if c == '5' {
        Some(5u8)
    } else if c == '6' {
        Some(6u8)
    } else if c == '7' {
        Some(7u8)
    } else if c == '8' {
        Some(8u8)
    } else if c == '9' {
        Some(9u8)
    } else if c == 'A' || c == 'a' {
        Some(10u8)
    } else if c == 'B' || c == 'b' {
        Some(11u8)
    } else if c == 'C' || c == 'c' {
        Some(12u8)
    } else if c == 'D' || c == 'd' {
        Some(13u8)
    } else if c == 'E' || c == 'e' {
        Some(14u8)
    } else if c == 'F' || c == 'f' {
        Some(15u8)
    } else {
        None
    }
}

/// The uppercase hex rendering of a byte sequence: two digits per byte.
pub open spec fn hex_upper_of(bytes: Seq<u8>) -> Seq<char>
    decreases bytes.len(),
{
    if bytes.len() == 0 {
        Seq::empty()
    } else {
        seq![hex_digit_char(bytes[0] / 16), hex_digit_char(bytes[0] % 16)] + hex_upper_of(
            bytes.drop_first(),
        )
    }
}

/// Whether a character sequence is well-formed hex: even length, every
/// character a hex digit.
pub open spec fn hex_decodable(s: Seq<char>) -> bool {
    s.len() % 2 == 0 && forall|i: int| 0 <= i < s.len() ==> hex_val(s[i]) is Some
}

/// The byte encoded by a pair of hex digits.
pub open spec fn hex_pair_val(c0: char, c1: char) -> u8
    recommends
        hex_val(c0) is Some,
        hex_val(c1) is Some,
{
    ((hex_val(c0)->0 * 16 + hex_val(c1)->0)) as u8
}

/// The bytes encoded by a hex character sequence (digit pairs in order).
pub open spec fn hex_decoded(s: Seq<char>) -> Seq<u8>
    decreases s.len(),
{
    if s.len() < 2 {
        Seq::empty()
    } else {
        seq![hex_pair_val(s[0], s[1])] + hex_decoded(s.skip(2))
    }
}

proof fn lemma_hex_upper_push(bytes: Seq<u8>, b: u8)
    ensures
        hex_upper_of(bytes.push(b)) == hex_upper_of(bytes) + seq![
            hex_digit_char(b / 16),
            hex_digit_char(b % 16),
        ],
    decreases bytes.len(),
{
    if bytes.len() == 0 {
        assert(bytes.push(b).drop_first() =~= Seq::<u8>::empty());
        assert(hex_upper_of(bytes.push(b).drop_first()) =~= Seq::<char>::empty());
        assert(hex_upper_of(bytes.push(b)) =~= hex_upper_of(bytes) + seq![
            hex_digit_char(b / 16),
            hex_digit_char(b % 16),
        ]);
    } else {
        assert(bytes.push(b).drop_first() =~= bytes.drop_first().push(b));
        lemma_hex_upper_push(bytes.drop_first(), b);
        assert(hex_upper_of(bytes.push(b)) =~= hex_upper_of(bytes) + seq![
            hex_digit_char(b / 16),
            hex_digit_char(b % 16),
        ]);
    }
}

proof fn lemma_hex_decoded_snoc(s: Seq<char>, c0: char, c1: char)
    requires
        s.len() % 2 == 0,
    ensures
        hex_decoded(s + seq![c0, c1]) == hex_decoded(s).push(hex_pair_val(c0, c1)),
    decreases s.len(),
{
    let t = s + seq![c0, c1];
    if s.len() == 0 {
        assert(t =~= seq![c0, c1]);
        assert(t.skip(2) =~= Seq::<char>::empty());
        assert(t[0] == c0 && t[1] == c1);
        assert(hex_decoded(t.skip(2)) =~= Seq::<u8>::empty());
        assert(hex_decoded(t) =~= seq![hex_pair_val(c0, c1)]);
        assert(hex_decoded(s) =~= Seq::<u8>::empty());
        assert(hex_decoded(s).push(hex_pair_val(c0, c1)) =~= seq![hex_pair_val(c0, c1)]);
    } else {
        assert(t.len() == s.len() + 2);
        assert(t[0] == s[0] && t[1] == s[1]);
        assert(t.skip(2) =~= s.skip(2) + seq![c0, c1]);
        lemma_hex_decoded_snoc(s.skip(2), c0, c1);
        assert(hex_decoded(t) == seq![hex_pair_val(s[0], s[1])] + hex_decoded(s.skip(2)).push(
            hex_pair_val(c0, c1),
        ));
        assert(hex_decoded(t) =~= hex_decoded(s).push(hex_pair_val(c0, c1)));
    }
}

/// Encoding then decoding gives the bytes back: the credential's hex key
/// decodes to exactly the key that was generated.
pub proof fn lemma_hex_round_trip(bytes: Seq<u8>)
    ensures
        hex_decodable(hex_upper_of(bytes)),
        hex_decoded(hex_upper_of(bytes)) == bytes,
        hex_upper_of(bytes).len() == 2 * bytes.len(),
    decreases bytes.len(),
{
    if bytes.len() == 0 {
    } else {
        let hi = hex_digit_char(bytes[0] / 16);
        let lo = hex_digit_char(bytes[0] % 16);
        let rest = hex_upper_of(bytes.drop_first());
        lemma_hex_round_trip(bytes.drop_first());
        assert(hex_val(hi) == Some((bytes[0] / 16) as u8));
        assert(hex_val(lo) == Some((bytes[0] % 16) as u8));
        assert(hex_upper_of(bytes).skip(2) =~= rest);
        assert(hex_pair_val(hi, lo) == bytes[0]) by {
            assert(bytes[0] / 16 * 16 + bytes[0] % 16 == bytes[0]) by (nonlinear_arith);
        }
        assert(hex_decoded(hex_upper_of(bytes)) =~= bytes);
    }
}

fn hex_digit_str(n: u8) -> (r: &'static str)
    requires
        n < 16,
    ensures
        r@ == seq![hex_digit_char(n)],
{
    proof {
        reveal_strlit("0");
        reveal_strlit("1");
        reveal_strlit("2");
        reveal_strlit("3");
        reveal_strlit("4");
        reveal_strlit("5");
        reveal_strlit("6");
        reveal_strlit("7");
        reveal_strlit("8");
        reveal_strlit("9");
        reveal_strlit("A");
        reveal_strlit("B");
        reveal_strlit("C");
        reveal_strlit("D");
        reveal_strlit("E");
        reveal_strlit("F");
    }
    let r = match n {
        0 => "0",
        1 => "1",
        2 => "2",
        3 => "3",
        4 => "4",
        5 => "5",
        6 => "6",
        7 => "7",
        8 => "8",
        9 => "9",
        10 => "A",
        11 => "B",
        12 => "C",
        13 => "D",
        14 => "E",
        _ => "F",
    };
    proof {
        assert(r@ =~= seq![hex_digit_char(n)]);
    }
    r
}

fn hex_val_exec(c: char) -> (r: Option<u8>)
    ensures
        r == hex_val(c),
{
    if c == '0' {
        Some(0)
    } else if c == '1' {
        Some(1)
    } else if c == '2' {
        Some(2)
    } else if c == '3' {
        Some(3)
    } else if c == '4' {
        Some(4)
    } else if c == '5' {
        Some(5)
    } else if c == '6' {
        Some(6)
    } else if c == '7' {
        Some(7)
    } else if c == '8' {
        Some(8)
    } else if c == '9' {
        Some(9)
    } else if c == 'A' || c == 'a' {
        Some(10)
    } else if c == 'B' || c == 'b' {
        Some(11)
    } else if c == 'C' || c == 'c' {
        Some(12)
    } else if c == 'D' || c == 'd' {
        Some(13)
    } else if c == 'E' || c == 'e' {
        Some(14)
    } else if c == 'F' || c == 'f' {
        Some(15)
    } else {
        None
    }
}

/// Render bytes as uppercase hex, two digits per byte.
pub fn encode_hex_upper(bytes: &Vec<u8>) -> (r: String)
    ensures
        r@ == hex_upper_of(bytes@),
{
    let mut out = String::new();
    let mut i: usize = 0;
    while i < bytes.len()
        invariant
            i <= bytes.len(),
            out@ == hex_upper_of(bytes@.take(i as int)),
        decreases bytes.len() - i,
    {
        let b = bytes[i];
        let hi = hex_digit_str(b / 16);
        let lo = hex_digit_str(b % 16);
        out.append(hi);
        out.append(lo);
        proof {
            lemma_hex_upper_push(bytes@.take(i as int), b);
            assert(bytes@.take(i as int).push(b) =~= bytes@.take(i + 1 as int));
        }
        i = i + 1;
    }
    proof {
        assert(bytes@.take(bytes@.len() as int) =~= bytes@);
    }
    out
}

/// Decode a hex string to bytes; `None` exactly when the string is not
/// well-formed hex (odd length or a non-digit character).
pub fn decode_hex(s: &str) -> (r: Option<Vec<u8>>)
    ensures
        r is Some <==> hex_decodable(s@),
        r is Some ==> r->0@ == hex_decoded(s@),
{
    let n = s.unicode_len();
    if n % 2 != 0 {
        return None;
    }
    let mut out: Vec<u8> = Vec::new();
    let mut i: usize = 0;
    while i < n
        invariant
            n == s@.len(),
            n % 2 == 0,
            i % 2 == 0,
            i <= n,
            forall|j: int| 0 <= j < i ==> hex_val(s@[j]) is Some,
            out@ == hex_decoded(s@.take(i as int)),
        decreases n - i,
    {
        let c0 = s.get_char(i);
        let c1 = s.get_char(i + 1);
        let v0 = match hex_val_exec(c0) {
            Some(v) => v,
            None => {
                return None;
            },
        };
        let v1 = match hex_val_exec(c1) {
            Some(v) => v,
            None => {
                return None;
            },
        };
        out.push(v0 * 16 + v1);
        proof {
            lemma_hex_decoded_snoc(s@.take(i as int), c0, c1);
            assert(s@.take(i as int) + seq![c0, c1] =~= s@.take(i + 2 as int));
        }
        i = i + 2;
    }
    proof {
        assert(s@.take(n as int) =~= s@);
    }
    Some(out)
}

} // verus!
