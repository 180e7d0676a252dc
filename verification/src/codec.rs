//! Bytes and texts: hexadecimal, fixed-width integers, UTF-8.
use vstd::prelude::*;

verus! {

/// A lowercase hexadecimal digit.
pub open spec fn hex_digit(d: nat) -> char {
    if d < 10 {
        (48 + d) as char
    } else {
        (87 + d) as char
    }
}

/// Bytes in lowercase hexadecimal, two digits each.
pub open spec fn hex_text(bytes: Seq<u8>) -> Seq<char> {
    Seq::new(
        2 * bytes.len(),
        |i: int|
            if i % 2 == 0 {
                hex_digit((bytes[i / 2] / 16) as nat)
            } else {
                hex_digit((bytes[i / 2] % 16) as nat)
            },
    )
}

/// Writes a hexadecimal digit.
pub(crate) fn hex_char(d: u8) -> (r: char)
    requires
        d < 16,
    ensures
        r == hex_digit(d as nat),
{
    if d < 10 {
        (48u8 + d) as char
    } else {
        (87u8 + d) as char
    }
}

/// Writes bytes in lowercase hexadecimal.
pub fn hex_of(bytes: &[u8]) -> (r: String)
    ensures
        r@ == hex_text(bytes@),
{
    let mut out = String::new();
    let mut i: usize = 0;
    proof {
        assert(out@ =~= hex_text(bytes@.take(0)));
    }
    while i < bytes.len()
        invariant
            i <= bytes@.len(),
            out@ == hex_text(bytes@.take(i as int)),
        decreases bytes@.len() - i,
    {
        let ghost before = out@;
        out.push(hex_char(bytes[i] / 16));
        out.push(hex_char(bytes[i] % 16));
        proof {
            let grown = hex_text(bytes@.take(i + 1));
            assert(grown.len() == before.len() + 2);
            assert forall|k: int| 0 <= k < grown.len() implies out@[k] == grown[k] by {
                if k < before.len() {
                    assert(out@[k] == before[k]);
                    assert(bytes@.take(i + 1)[k / 2] == bytes@.take(i as int)[k / 2]);
                }
            }
            assert(out@ =~= grown);
        }
        i = i + 1;
    }
    proof {
        assert(bytes@.take(bytes@.len() as int) =~= bytes@);
    }
    out
}

/// The value of a hexadecimal digit, of either case.
pub open spec fn hex_value(b: u8) -> Option<u8> {
    if 48 <= b <= 57 {
        Some((b - 48) as u8)
    } else if 97 <= b <= 102 {
        Some((b - 87) as u8)
    } else if 65 <= b <= 70 {
        Some((b - 55) as u8)
    } else {
        None
    }
}

/// The value of two hexadecimal characters. A plus sign may stand in place of
/// the first digit.
pub open spec fn hex_pair(a: u8, b: u8) -> Option<u8> {
    if a == 43 {
        hex_value(b)
    } else {
        match (hex_value(a), hex_value(b)) {
            (Some(x), Some(y)) => Some((16 * x + y) as u8),
            _ => None,
        }
    }
}

/// The bytes that hexadecimal text spells, pair by pair; `None` when a pair
/// spells none.
pub open spec fn hex_bytes(text: Seq<u8>) -> Option<Seq<u8>>
    decreases text.len(),
{
    if text.len() == 0 {
        Some(Seq::empty())
    } else if text.len() == 1 {
        None
    } else {
        match hex_bytes(text.take(text.len() - 2)) {
            None => None,
            Some(done) => match hex_pair(text[text.len() - 2], text[text.len() - 1]) {
                None => None,
                Some(b) => Some(done.push(b)),
            },
        }
    }
}

fn digit_value(b: u8) -> (r: Option<u8>)
    ensures
        r == hex_value(b),
        r is Some ==> r->0 < 16,
{
    if 48 <= b && b <= 57 {
        Some(b - 48)
    } else if 97 <= b && b <= 102 {
        Some(b - 87)
    } else if 65 <= b && b <= 70 {
        Some(b - 55)
    } else {
        None
    }
}

fn pair_value(a: u8, b: u8) -> (r: Option<u8>)
    ensures
        r == hex_pair(a, b),
{
    if a == 43 {
        return digit_value(b);
    }
    match (digit_value(a), digit_value(b)) {
        (Some(x), Some(y)) => Some(16 * x + y),
        _ => None,
    }
}

proof fn lemma_hex_refused(text: Seq<u8>, n: int)
    requires
        0 <= n <= text.len(),
        n % 2 == text.len() % 2,
        hex_bytes(text.take(n)) is None,
    ensures
        hex_bytes(text) is None,
    decreases text.len() - n,
{
    if n == text.len() {
        assert(text.take(n) =~= text);
    } else {
        assert(text.take(n + 2).take(n) =~= text.take(n));
        lemma_hex_refused(text, n + 2);
    }
}

/// Reads hexadecimal text, pair by pair.
pub(crate) fn read_hex(text: &[u8]) -> (r: Option<Vec<u8>>)
    ensures
        match r {
            Some(v) => hex_bytes(text@) == Some(v@),
            None => hex_bytes(text@) is None,
        },
{
    if text.len() % 2 == 1 {
        proof {
            lemma_odd_hex(text@);
        }
        return None;
    }
    let mut out: Vec<u8> = Vec::new();
    let mut i: usize = 0;
    proof {
        assert(text@.take(0) =~= Seq::<u8>::empty());
    }
    while i < text.len()
        invariant
            i <= text@.len(),
            i % 2 == 0,
            text@.len() % 2 == 0,
            hex_bytes(text@.take(i as int)) == Some(out@),
        decreases text@.len() - i,
    {
        proof {
            assert(text@.take(i + 2).take(i as int) =~= text@.take(i as int));
        }
        match pair_value(text[i], text[i + 1]) {
            Some(b) => {
                out.push(b);
            },
            None => {
                proof {
                    lemma_hex_refused(text@, i + 2);
                }
                return None;
            },
        }
        i = i + 2;
    }
    proof {
        assert(text@.take(text@.len() as int) =~= text@);
    }
    Some(out)
}

proof fn lemma_odd_hex(text: Seq<u8>)
    requires
        text.len() % 2 == 1,
    ensures
        hex_bytes(text) is None,
    decreases text.len(),
{
    if text.len() > 1 {
        lemma_odd_hex(text.take(text.len() - 2));
    }
}

/// A 64-bit integer in little-endian bytes.
#[verifier::opaque]
pub open spec fn le8(n: u64) -> Seq<u8> {
    seq![
        (n % 0x100) as u8,
        (n / 0x100 % 0x100) as u8,
        (n / 0x1_0000 % 0x100) as u8,
        (n / 0x100_0000 % 0x100) as u8,
        (n / 0x1_0000_0000 % 0x100) as u8,
        (n / 0x100_0000_0000 % 0x100) as u8,
        (n / 0x1_0000_0000_0000 % 0x100) as u8,
        (n / 0x100_0000_0000_0000 % 0x100) as u8,
    ]
}

/// A 64-bit integer in big-endian bytes.
pub open spec fn be8(n: u64) -> Seq<u8> {
    le8(n).reverse()
}

/// The integer that eight little-endian bytes make.
pub open spec fn from_le8(b: Seq<u8>) -> int {
    b[0] + 0x100 * b[1] + 0x1_0000 * b[2] + 0x100_0000 * b[3] + 0x1_0000_0000 * b[4]
        + 0x100_0000_0000 * b[5] + 0x1_0000_0000_0000 * b[6] + 0x100_0000_0000_0000 * b[7]
}

/// Appends a 64-bit integer in little-endian bytes.
pub fn push_le8(out: &mut Vec<u8>, n: u64)
    ensures
        final(out)@ == old(out)@ + le8(n),
{
    let ghost before = out@;
    out.push((n % 0x100) as u8);
    out.push((n / 0x100 % 0x100) as u8);
    out.push((n / 0x1_0000 % 0x100) as u8);
    out.push((n / 0x100_0000 % 0x100) as u8);
    out.push((n / 0x1_0000_0000 % 0x100) as u8);
    out.push((n / 0x100_0000_0000 % 0x100) as u8);
    out.push((n / 0x1_0000_0000_0000 % 0x100) as u8);
    out.push((n / 0x100_0000_0000_0000 % 0x100) as u8);
    proof {
        reveal(le8);
        assert(out@ =~= before + le8(n));
    }
}

/// Appends a 64-bit integer in big-endian bytes.
pub fn push_be8(out: &mut Vec<u8>, n: u64)
    ensures
        final(out)@ == old(out)@ + be8(n),
{
    let ghost before = out@;
    out.push((n / 0x100_0000_0000_0000 % 0x100) as u8);
    out.push((n / 0x1_0000_0000_0000 % 0x100) as u8);
    out.push((n / 0x100_0000_0000 % 0x100) as u8);
    out.push((n / 0x1_0000_0000 % 0x100) as u8);
    out.push((n / 0x100_0000 % 0x100) as u8);
    out.push((n / 0x1_0000 % 0x100) as u8);
    out.push((n / 0x100 % 0x100) as u8);
    out.push((n % 0x100) as u8);
    proof {
        reveal(le8);
        assert(out@ =~= before + be8(n));
    }
}

/// Reads a 64-bit integer from the first eight bytes, little-endian.
pub fn read_le8(b: &[u8]) -> (r: u64)
    requires
        b@.len() >= 8,
    ensures
        r == from_le8(b@),
{
    (b[0] as u64) + 0x100 * (b[1] as u64) + 0x1_0000 * (b[2] as u64) + 0x100_0000 * (b[3] as u64)
        + 0x1_0000_0000 * (b[4] as u64) + 0x100_0000_0000 * (b[5] as u64) + 0x1_0000_0000_0000 * (
    b[6] as u64) + 0x100_0000_0000_0000 * (b[7] as u64)
}

/// Writing an integer in little-endian bytes and reading it gives it back.
pub proof fn law_le8_round_trip(n: u64)
    ensures
        from_le8(le8(n)) == n,
        le8(n).len() == 8,
{
    reveal(le8);
    let q1 = n / 0x100;
    let q2 = n / 0x1_0000;
    let q3 = n / 0x100_0000;
    let q4 = n / 0x1_0000_0000;
    let q5 = n / 0x100_0000_0000;
    let q6 = n / 0x1_0000_0000_0000;
    let q7 = n / 0x100_0000_0000_0000;
    assert(q2 == q1 / 0x100);
    assert(q3 == q2 / 0x100);
    assert(q4 == q3 / 0x100);
    assert(q5 == q4 / 0x100);
    assert(q6 == q5 / 0x100);
    assert(q7 == q6 / 0x100);
    assert(q7 < 0x100);
}

/// `String::from_utf8`: the text that bytes spell in UTF-8; `None` when they
/// are not UTF-8.
#[verifier::external_body]
pub(crate) fn utf8_text(bytes: &[u8]) -> (r: Option<String>)
    ensures
        match r {
            Some(s) => vstd::utf8::encode_utf8(s@) == bytes@,
            None => !vstd::utf8::valid_utf8(bytes@),
        },
{
    String::from_utf8(bytes.to_vec()).ok()
}

/// The text that bytes spell in UTF-8, where they do.
pub open spec fn utf8_in(bytes: Seq<u8>) -> Option<Seq<char>> {
    if vstd::utf8::valid_utf8(bytes) {
        Some(vstd::utf8::decode_utf8(bytes))
    } else {
        None
    }
}

/// Reads bytes as UTF-8 text.
pub fn read_utf8(bytes: &[u8]) -> (r: Option<String>)
    ensures
        match r {
            Some(s) => utf8_in(bytes@) == Some(s@),
            None => utf8_in(bytes@) is None,
        },
{
    let r = utf8_text(bytes);
    proof {
        if r is Some {
            vstd::utf8::encode_utf8_decode_utf8(r->0@);
            vstd::utf8::encode_utf8_valid_utf8(r->0@);
        }
    }
    r
}

/// Appends the bytes of a text.
pub fn push_text(out: &mut Vec<u8>, s: &str)
    ensures
        final(out)@ == old(out)@ + vstd::utf8::encode_utf8(s@),
{
    out.extend_from_slice(s.as_bytes());
}

/// A sixteen-byte array from a list of bytes.
pub fn array16(v: &[u8]) -> (r: [u8; 16])
    requires
        v@.len() == 16,
    ensures
        r@ == v@,
{
    let mut out: [u8; 16] = [0u8; 16];
    let mut i: usize = 0;
    while i < 16
        invariant
            i <= 16,
            v@.len() == 16,
            forall|k: int| 0 <= k < i ==> out@[k] == v@[k],
        decreases 16 - i,
    {
        out[i] = v[i];
        i = i + 1;
    }
    proof {
        assert(out@ =~= v@);
    }
    out
}

/// A thirty-two-byte array from a list of bytes.
pub fn array32(v: &[u8]) -> (r: [u8; 32])
    requires
        v@.len() == 32,
    ensures
        r@ == v@,
{
    let mut out: [u8; 32] = [0u8; 32];
    let mut i: usize = 0;
    while i < 32
        invariant
            i <= 32,
            v@.len() == 32,
            forall|k: int| 0 <= k < i ==> out@[k] == v@[k],
        decreases 32 - i,
    {
        out[i] = v[i];
        i = i + 1;
    }
    proof {
        assert(out@ =~= v@);
    }
    out
}

/// Two arrays with the same bytes are the same array.
pub(crate) fn same16(a: &[u8; 16], b: &[u8; 16]) -> (r: bool)
    ensures
        r == (a@ == b@),
        r == (*a == *b),
{
    let r = crate::text::same_bytes(a.as_slice(), b.as_slice());
    proof {
        if a@ == b@ {
            assert(*a =~= *b);
        }
    }
    r
}

/// Two arrays with the same bytes are the same array.
pub(crate) fn same32(a: &[u8; 32], b: &[u8; 32]) -> (r: bool)
    ensures
        r == (a@ == b@),
        r == (*a == *b),
{
    let r = crate::text::same_bytes(a.as_slice(), b.as_slice());
    proof {
        if a@ == b@ {
            assert(*a =~= *b);
        }
    }
    r
}

} // verus!
