//! Hexadecimal text of bytes, through the `hex` crate.
use vstd::prelude::*;

verus! {

/// The lower-case hexadecimal digit of `d` (0..16).
pub open spec fn lower_digit(d: int) -> char {
    if d == 0 { '0' } else if d == 1 { '1' } else if d == 2 { '2' } else if d == 3 { '3' }
    else if d == 4 { '4' } else if d == 5 { '5' } else if d == 6 { '6' } else if d == 7 { '7' }
    else if d == 8 { '8' } else if d == 9 { '9' } else if d == 10 { 'a' } else if d == 11 { 'b' }
    else if d == 12 { 'c' } else if d == 13 { 'd' } else if d == 14 { 'e' } else { 'f' }
}

/// The upper-case hexadecimal digit of `d` (0..16).
pub open spec fn upper_digit(d: int) -> char {
    if d == 0 { '0' } else if d == 1 { '1' } else if d == 2 { '2' } else if d == 3 { '3' }
    else if d == 4 { '4' } else if d == 5 { '5' } else if d == 6 { '6' } else if d == 7 { '7' }
    else if d == 8 { '8' } else if d == 9 { '9' } else if d == 10 { 'A' } else if d == 11 { 'B' }
    else if d == 12 { 'C' } else if d == 13 { 'D' } else if d == 14 { 'E' } else { 'F' }
}

/// The value of hexadecimal digit `i` of bytes written two digits each, high first.
pub open spec fn nibble(bytes: Seq<u8>, i: int) -> int {
    if i % 2 == 0 { bytes[i / 2] as int / 16 } else { bytes[i / 2] as int % 16 }
}

/// The bytes written as lower-case hexadecimal digits, two per byte, high first.
pub open spec fn hex_lower(bytes: Seq<u8>) -> Seq<char> {
    Seq::new(2 * bytes.len(), |i: int| lower_digit(nibble(bytes, i)))
}

/// The bytes written as upper-case hexadecimal digits, two per byte, high first.
pub open spec fn hex_upper(bytes: Seq<u8>) -> Seq<char> {
    Seq::new(2 * bytes.len(), |i: int| upper_digit(nibble(bytes, i)))
}

/// `hex::encode`: the lower-case hexadecimal text of the bytes, two digits per byte,
/// high digit first, as the crate documents.
#[verifier::external_body]
pub(crate) fn hex_encode(bytes: &[u8]) -> (s: String)
    ensures
        s@ == hex_lower(bytes@),
{
    hex::encode(bytes)
}

/// A lower-case hexadecimal digit made upper-case; other characters stay.
pub open spec fn upper_hex_char(c: char) -> char {
    if c == 'a' { 'A' } else if c == 'b' { 'B' } else if c == 'c' { 'C' }
    else if c == 'd' { 'D' } else if c == 'e' { 'E' } else if c == 'f' { 'F' } else { c }
}

/// A hexadecimal digit character.
pub open spec fn is_hex_char(c: char) -> bool {
    ('0' <= c <= '9') || ('a' <= c <= 'f') || ('A' <= c <= 'F')
}

fn upper_digit_str(c: char) -> (s: &'static str)
    requires
        is_hex_char(c),
    ensures
        s@ == seq![upper_hex_char(c)],
{
    let s = match c {
        '0' => "0", '1' => "1", '2' => "2", '3' => "3", '4' => "4",
        '5' => "5", '6' => "6", '7' => "7", '8' => "8", '9' => "9",
        'a' => "A", 'b' => "B", 'c' => "C", 'd' => "D", 'e' => "E", 'f' => "F",
        'A' => "A", 'B' => "B", 'C' => "C", 'D' => "D", 'E' => "E", _ => "F",
    };
    proof {
        reveal_strlit("0"); reveal_strlit("1"); reveal_strlit("2"); reveal_strlit("3");
        reveal_strlit("4"); reveal_strlit("5"); reveal_strlit("6"); reveal_strlit("7");
        reveal_strlit("8"); reveal_strlit("9"); reveal_strlit("A"); reveal_strlit("B");
        reveal_strlit("C"); reveal_strlit("D"); reveal_strlit("E"); reveal_strlit("F");
    }
    s
}

/// Hexadecimal text with its letters made upper-case.
pub fn upper_hex(s: &str) -> (r: String)
    requires
        forall|i: int| 0 <= i < s@.len() ==> is_hex_char(#[trigger] s@[i]),
    ensures
        r@ == s@.map_values(|c: char| upper_hex_char(c)),
{
    let v = crate::text::chars_of(s);
    let mut r = crate::text::owned("");
    proof {
        reveal_strlit("");
    }
    let mut i: usize = 0;
    while i < v.len()
        invariant
            v@ == s@,
            forall|k: int| 0 <= k < s@.len() ==> is_hex_char(#[trigger] s@[k]),
            i <= v@.len(),
            r@ == s@.take(i as int).map_values(|c: char| upper_hex_char(c)),
        decreases v.len() - i,
    {
        let d = upper_digit_str(v[i]);
        r.append(d);
        proof {
            assert(r@ =~= s@.take(i as int + 1).map_values(|c: char| upper_hex_char(c)));
        }
        i = i + 1;
    }
    proof {
        assert(s@.take(i as int) =~= s@);
    }
    r
}

/// Lower-case hexadecimal text consists of digits, and made upper-case it is the
/// upper-case text of the same bytes.
pub proof fn lemma_hex_lower_upper(bytes: Seq<u8>)
    ensures
        forall|i: int| 0 <= i < hex_lower(bytes).len() ==> is_hex_char(#[trigger] hex_lower(bytes)[i]),
        hex_lower(bytes).map_values(|c: char| upper_hex_char(c)) == hex_upper(bytes),
{
    assert forall|i: int| 0 <= i < hex_lower(bytes).len() implies is_hex_char(#[trigger] hex_lower(bytes)[i]) by {
        let d = nibble(bytes, i);
        assert(0 <= d < 16) by {
            assert(0 <= i / 2 < bytes.len());
        }
    }
    let up = hex_lower(bytes).map_values(|c: char| upper_hex_char(c));
    assert forall|i: int| 0 <= i < hex_upper(bytes).len() implies #[trigger] up[i] == hex_upper(bytes)[i] by {
        let d = nibble(bytes, i);
        assert(0 <= d < 16) by {
            assert(0 <= i / 2 < bytes.len());
        }
    }
    assert(up =~= hex_upper(bytes));
}

} // verus!
