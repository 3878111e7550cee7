use vstd::prelude::*;
use vstd::string::StrSliceExecFns;
use vstd::string::StringExecFns;

verus! {

/// The SHA-256 digest of a byte sequence. The digest is a function of the
/// bytes alone; its value is named here, not written out.
pub uninterp spec fn sha256_of(bytes: Seq<u8>) -> Seq<u8>;

/// Relies on sha2::Sha256 through digest::Digest::digest: the digest depends
/// on the input bytes alone and is always 32 bytes long.
#[verifier::external_body]
pub(crate) fn sha256(bytes: &[u8]) -> (r: Vec<u8>)
    ensures
        r@ == sha256_of(bytes@),
        r@.len() == 32,
{
    <sha2::Sha256 as sha2::Digest>::digest(bytes).to_vec()
}

/// Numeric value of a hexadecimal digit; 16 marks a character that is none.
pub open spec fn hex_digit_val(c: char) -> int {
    let v: int = c as u32 as int;
    if 48 <= v && v <= 57 {
        v - 48
    } else if 97 <= v && v <= 102 {
        v - 87
    } else if 65 <= v && v <= 70 {
        v - 55
    } else {
        16
    }
}

pub open spec fn is_hex_digit(c: char) -> bool {
    hex_digit_val(c) < 16
}

/// The lowercase hexadecimal digit for a value below 16.
pub open spec fn hex_char_of(v: int) -> char {
    if v == 0 { '0' }
    else if v == 1 { '1' }
    else if v == 2 { '2' }
    else if v == 3 { '3' }
    else if v == 4 { '4' }
    else if v == 5 { '5' }
    else if v == 6 { '6' }
    else if v == 7 { '7' }
    else if v == 8 { '8' }
    else if v == 9 { '9' }
    else if v == 10 { 'a' }
    else if v == 11 { 'b' }
    else if v == 12 { 'c' }
    else if v == 13 { 'd' }
    else if v == 14 { 'e' }
    else { 'f' }
}

pub proof fn lemma_hex_char_of_val(v: int)
    requires
        0 <= v < 16,
    ensures
        is_hex_digit(hex_char_of(v)),
        hex_digit_val(hex_char_of(v)) == v,
{
}

/// The lowercase hexadecimal rendering of a byte sequence, two digits a byte.
pub open spec fn hex_encode_spec(b: Seq<u8>) -> Seq<char>
    decreases b.len(),
{
    if b.len() == 0 {
        Seq::<char>::empty()
    } else {
        seq![hex_char_of(b[0] as int / 16), hex_char_of(b[0] as int % 16)] + hex_encode_spec(b.skip(1))
    }
}

/// A sequence of characters decodes as hexadecimal: even length, digits only.
pub open spec fn hex_decode_ok(s: Seq<char>) -> bool {
    s.len() % 2 == 0 && (forall|i: int| 0 <= i < s.len() ==> is_hex_digit(#[trigger] s[i]))
}

/// The bytes a hexadecimal character sequence stands for, two digits a byte.
pub open spec fn hex_decode_spec(s: Seq<char>) -> Seq<u8>
    decreases s.len(),
{
    if s.len() < 2 {
        Seq::<u8>::empty()
    } else {
        seq![(hex_digit_val(s[0]) * 16 + hex_digit_val(s[1])) as u8] + hex_decode_spec(s.skip(2))
    }
}

pub proof fn lemma_hex_encode_len(b: Seq<u8>)
    ensures
        hex_encode_spec(b).len() == 2 * b.len(),
    decreases b.len(),
{
    if b.len() > 0 {
        lemma_hex_encode_len(b.skip(1));
    }
}

/// Encoding and decoding are inverse: the rendering of any byte sequence is
/// well-formed hexadecimal and decodes back to the same bytes.
pub proof fn lemma_hex_decode_encode(b: Seq<u8>)
    ensures
        hex_decode_ok(hex_encode_spec(b)),
        hex_decode_spec(hex_encode_spec(b)) == b,
    decreases b.len(),
{
    lemma_hex_encode_len(b);
    if b.len() == 0 {
        assert(hex_decode_spec(hex_encode_spec(b)) =~= b);
    } else {
        let e = hex_encode_spec(b);
        lemma_hex_decode_encode(b.skip(1));
        lemma_hex_char_of_val(b[0] as int / 16);
        lemma_hex_char_of_val(b[0] as int % 16);
        assert(e.skip(2) =~= hex_encode_spec(b.skip(1)));
        assert forall|i: int| 0 <= i < e.len() implies is_hex_digit(#[trigger] e[i]) by {
            if i >= 2 {
                assert(e[i] == hex_encode_spec(b.skip(1))[i - 2]);
            }
        }
        assert((hex_digit_val(e[0]) * 16 + hex_digit_val(e[1])) as u8 == b[0]);
        assert(hex_decode_spec(e) =~= b);
    }
}

/// The digit character for a nibble, as a one-character string slice.
fn hex_digit_str(v: u8) -> (r: &'static str)
    requires
        v < 16,
    ensures
        r@ =~= seq![hex_char_of(v as int)],
{
    proof {
        reveal_strlit("0");
        reveal_strlit("1");
        reveal_strlit("2");
        reveal_strlit("3");
        reveal_strlit("4");
        reveal_strlit("5");
        reveal_strlit("6");
        reveal_strlit("7");
        reveal_strlit("8");
        reveal_strlit("9");
        reveal_strlit("a");
        reveal_strlit("b");
        reveal_strlit("c");
        reveal_strlit("d");
        reveal_strlit("e");
        reveal_strlit("f");
    }
    if v == 0 { "0" }
    else if v == 1 { "1" }
    else if v == 2 { "2" }
    else if v == 3 { "3" }
    else if v == 4 { "4" }
    else if v == 5 { "5" }
    else if v == 6 { "6" }
    else if v == 7 { "7" }
    else if v == 8 { "8" }
    else if v == 9 { "9" }
    else if v == 10 { "a" }
    else if v == 11 { "b" }
    else if v == 12 { "c" }
    else if v == 13 { "d" }
    else if v == 14 { "e" }
    else { "f" }
}

proof fn lemma_hex_encode_take_step(b: Seq<u8>, i: int)
    requires
        0 <= i < b.len(),
    ensures
        hex_encode_spec(b.take(i + 1)) == hex_encode_spec(b.take(i)) + seq![
            hex_char_of(b[i] as int / 16),
            hex_char_of(b[i] as int % 16),
        ],
    decreases i,
{
    if i == 0 {
        assert(b.take(1) =~= seq![b[0]]);
        assert(b.take(1).skip(1) =~= Seq::<u8>::empty());
        assert(b.take(0) =~= Seq::<u8>::empty());
        assert(hex_encode_spec(b.take(i + 1)) =~= hex_encode_spec(b.take(i)) + seq![
            hex_char_of(b[i] as int / 16),
            hex_char_of(b[i] as int % 16),
        ]);
    } else {
        lemma_hex_encode_take_step(b.skip(1), i - 1);
        assert(b.take(i + 1).skip(1) =~= b.skip(1).take(i));
        assert(b.take(i).skip(1) =~= b.skip(1).take(i - 1));
        assert(hex_encode_spec(b.take(i + 1)) =~= hex_encode_spec(b.take(i)) + seq![
            hex_char_of(b[i] as int / 16),
            hex_char_of(b[i] as int % 16),
        ]);
    }
}

/// Renders bytes as lowercase hexadecimal, two digits for each byte.
pub fn hex_encode(bytes: &[u8]) -> (r: String)
    ensures
        r@ == hex_encode_spec(bytes@),
{
    let mut out = String::new();
    let mut i: usize = 0;
    while i < bytes.len()
        invariant
            i <= bytes@.len(),
            out@ == hex_encode_spec(bytes@.take(i as int)),
        decreases bytes@.len() - i,
    {
        let b = bytes[i];
        out.append(hex_digit_str(b / 16));
        out.append(hex_digit_str(b % 16));
        proof {
            lemma_hex_encode_take_step(bytes@, i as int);
        }
        i = i + 1;
    }
    proof {
        assert(bytes@.take(bytes@.len() as int) =~= bytes@);
    }
    out
}

/// The numeric value of one hexadecimal digit character, if it is one.
fn hex_digit_value(c: char) -> (r: Option<u8>)
    ensures
        is_hex_digit(c) ==> r == Some(hex_digit_val(c) as u8),
        !is_hex_digit(c) ==> r is None,
{
    let v = c as u32;
    if 48 <= v && v <= 57 {
        Some((v - 48) as u8)
    } else if 97 <= v && v <= 102 {
        Some((v - 87) as u8)
    } else if 65 <= v && v <= 70 {
        Some((v - 55) as u8)
    } else {
        None
    }
}

proof fn lemma_hex_decode_take_step(s: Seq<char>, i: int)
    requires
        0 <= i,
        i + 2 <= s.len(),
        i % 2 == 0,
    ensures
        hex_decode_spec(s.take(i + 2)) == hex_decode_spec(s.take(i)).push(
            (hex_digit_val(s[i]) * 16 + hex_digit_val(s[i + 1])) as u8,
        ),
    decreases i,
{
    if i == 0 {
        assert(s.take(2).skip(2) =~= Seq::<char>::empty());
        assert(s.take(0) =~= Seq::<char>::empty());
        assert(hex_decode_spec(s.take(2)) =~= hex_decode_spec(s.take(0)).push(
            (hex_digit_val(s[0]) * 16 + hex_digit_val(s[1])) as u8,
        ));
    } else {
        lemma_hex_decode_take_step(s.skip(2), i - 2);
        assert(s.take(i + 2).skip(2) =~= s.skip(2).take(i));
        assert(s.take(i).skip(2) =~= s.skip(2).take(i - 2));
        assert(hex_decode_spec(s.take(i + 2)) =~= hex_decode_spec(s.take(i)).push(
            (hex_digit_val(s[i]) * 16 + hex_digit_val(s[i + 1])) as u8,
        ));
    }
}

/// Decodes a hexadecimal string into bytes; `None` when the string has odd
/// length or holds a character that is no hexadecimal digit.
pub fn hex_decode(s: &str) -> (r: Option<Vec<u8>>)
    ensures
        hex_decode_ok(s@) ==> (r matches Some(v) && v@ == hex_decode_spec(s@)),
        !hex_decode_ok(s@) ==> r is None,
{
    let n = s.unicode_len();
    if n % 2 != 0 {
        return None;
    }
    let mut out: Vec<u8> = Vec::new();
    let mut i: usize = 0;
    while i < n
        invariant
            n == s@.len(),
            n % 2 == 0,
            i % 2 == 0,
            i <= n,
            out@ == hex_decode_spec(s@.take(i as int)),
            forall|j: int| 0 <= j < i ==> is_hex_digit(#[trigger] s@[j]),
        decreases n - i,
    {
        let c0 = s.get_char(i);
        let c1 = s.get_char(i + 1);
        let v0 = match hex_digit_value(c0) {
            Some(v) => v,
            None => { return None; },
        };
        let v1 = match hex_digit_value(c1) {
            Some(v) => v,
            None => { return None; },
        };
        out.push(v0 * 16 + v1);
        proof {
            lemma_hex_decode_take_step(s@, i as int);
        }
        i = i + 2;
    }
    proof {
        assert(s@.take(n as int) =~= s@);
    }
    Some(out)
}

} // verus!

