//! The textual form of a digest: 20 bytes are rendered as 32 characters by
//! cutting the 160 bits into 5-bit slices, high bits first, and naming each
//! slice with the alphabet `0123456789abcdefghijklmnopqrstuv` in ascending
//! order.  Because the alphabet is assigned in value order, the
//! lexicographic order of the text matches the byte order of the digest.

use vstd::prelude::*;

verus! {

use vstd::arithmetic::div_mod::lemma_fundamental_div_mod;
use vstd::arithmetic::div_mod::lemma_fundamental_div_mod_converse;

/// True of the 32 characters that the textual form may contain.
pub open spec fn is_alphabet_char(c: char) -> bool {
    ('0' <= c && c <= '9') || ('a' <= c && c <= 'v')
}

/// The 5-bit value that an alphabet character stands for
/// (32, an impossible value, for any other character).
pub open spec fn char_value(c: char) -> u8 {
    if '0' <= c && c <= '9' {
        (c as int - 48) as u8
    } else if 'a' <= c && c <= 'v' {
        (c as int - 87) as u8
    } else {
        32
    }
}

/// The ASCII code of the alphabet character for a 5-bit value.
pub open spec fn value_code(v: u8) -> u8 {
    if v < 10 {
        (v + 48) as u8
    } else {
        (v + 87) as u8
    }
}

/// The alphabet character for a 5-bit value.
pub open spec fn value_char(v: u8) -> char {
    value_code(v) as char
}

/// A well-formed textual form: exactly 32 characters, all from the alphabet.
pub open spec fn text_valid(s: Seq<char>) -> bool {
    &&& s.len() == 32
    &&& forall|j: int| 0 <= j < 32 ==> is_alphabet_char(#[trigger] s[j])
}

/// Symbol `n` (0 <= n < 8) of the group that encodes bytes
/// `5*g .. 5*g + 5` of `bs`: the `n`-th 5-bit slice of those 40 bits,
/// taken high bits first.
pub open spec fn group_sym(bs: Seq<u8>, g: int, n: int) -> u8 {
    let b0 = bs[5 * g];
    let b1 = bs[5 * g + 1];
    let b2 = bs[5 * g + 2];
    let b3 = bs[5 * g + 3];
    let b4 = bs[5 * g + 4];
    if n == 0 {
        b0 >> 3
    } else if n == 1 {
        ((b0 & 7) << 2) | (b1 >> 6)
    } else if n == 2 {
        (b1 >> 1) & 31
    } else if n == 3 {
        ((b1 & 1) << 4) | (b2 >> 4)
    } else if n == 4 {
        ((b2 & 15) << 1) | (b3 >> 7)
    } else if n == 5 {
        (b3 >> 2) & 31
    } else if n == 6 {
        ((b3 & 3) << 3) | (b4 >> 5)
    } else {
        b4 & 31
    }
}

/// The `j`-th 5-bit symbol (0 <= j < 32) of the encoding of 20 bytes.
pub open spec fn sym_at(bs: Seq<u8>, j: int) -> u8 {
    group_sym(bs, j / 8, j % 8)
}

/// The full textual form of 20 bytes, as a sequence of 32 characters.
pub open spec fn encoded(bs: Seq<u8>) -> Seq<char> {
    Seq::new(32, |j: int| value_char(sym_at(bs, j)))
}

/// Byte `m` (0 <= m < 5) of the group rebuilt from symbols
/// `8*g .. 8*g + 8`: the `m`-th 8-bit slice of those 40 bits.
pub open spec fn group_byte(vals: Seq<u8>, g: int, m: int) -> u8 {
    let c0 = vals[8 * g];
    let c1 = vals[8 * g + 1];
    let c2 = vals[8 * g + 2];
    let c3 = vals[8 * g + 3];
    let c4 = vals[8 * g + 4];
    let c5 = vals[8 * g + 5];
    let c6 = vals[8 * g + 6];
    let c7 = vals[8 * g + 7];
    if m == 0 {
        (c0 << 3) | (c1 >> 2)
    } else if m == 1 {
        ((c1 & 3) << 6) | (c2 << 1) | (c3 >> 4)
    } else if m == 2 {
        ((c3 & 15) << 4) | (c4 >> 1)
    } else if m == 3 {
        ((c4 & 1) << 7) | (c5 << 2) | (c6 >> 3)
    } else {
        ((c6 & 7) << 5) | c7
    }
}

/// The `i`-th byte (0 <= i < 20) rebuilt from 32 5-bit symbols.
pub open spec fn byte_at(vals: Seq<u8>, i: int) -> u8 {
    group_byte(vals, i / 5, i % 5)
}

/// The 5-bit values of the characters of a textual form.
pub open spec fn char_values(s: Seq<char>) -> Seq<u8> {
    Seq::new(s.len(), |j: int| char_value(s[j]))
}

/// The 20 bytes named by a well-formed textual form.
pub open spec fn decoded(s: Seq<char>) -> Seq<u8> {
    Seq::new(20, |i: int| byte_at(char_values(s), i))
}

/// Byte-lexicographic strict order on equal-length byte sequences.
pub open spec fn lex_lt_bytes(a: Seq<u8>, b: Seq<u8>) -> bool {
    exists|i: int|
        #![trigger a[i], b[i]]
        0 <= i < a.len() && i < b.len() && a[i] < b[i] && (forall|k: int|
            #![trigger a[k], b[k]]
            0 <= k < i ==> a[k] == b[k])
}

/// Character-lexicographic strict order on equal-length character sequences.
pub open spec fn lex_lt_chars(a: Seq<char>, b: Seq<char>) -> bool {
    exists|i: int|
        #![trigger a[i], b[i]]
        0 <= i < a.len() && i < b.len() && a[i] < b[i] && (forall|k: int|
            #![trigger a[k], b[k]]
            0 <= k < i ==> a[k] == b[k])
}

/// Every 5-bit value names an alphabet character, and that character
/// names the value back.
pub proof fn lemma_char_of_value(v: u8)
    requires
        v < 32,
    ensures
        is_alphabet_char(value_char(v)),
        char_value(value_char(v)) == v,
{
}

/// Every alphabet character stands for a 5-bit value, and that value
/// names the character back.
pub proof fn lemma_value_of_char(c: char)
    requires
        is_alphabet_char(c),
    ensures
        char_value(c) < 32,
        value_char(char_value(c)) == c,
{
}

/// The alphabet is assigned to values in ascending character order.
pub proof fn lemma_value_char_order(u: u8, v: u8)
    requires
        u < v,
        v < 32,
    ensures
        value_char(u) < value_char(v),
{
}

/// Each 5-bit slice of a group is below 32.
proof fn lemma_group_sym_bound(bs: Seq<u8>, g: int, n: int)
    requires
        0 <= n < 8,
    ensures
        group_sym(bs, g, n) < 32,
{
    let b0 = bs[5 * g];
    let b1 = bs[5 * g + 1];
    let b2 = bs[5 * g + 2];
    let b3 = bs[5 * g + 3];
    let b4 = bs[5 * g + 4];
    assert((b0 >> 3) < 32 && (((b0 & 7) << 2) | (b1 >> 6)) < 32 && ((b1 >> 1) & 31) < 32 && (((b1
        & 1) << 4) | (b2 >> 4)) < 32 && (((b2 & 15) << 1) | (b3 >> 7)) < 32 && ((b3 >> 2) & 31)
        < 32 && (((b3 & 3) << 3) | (b4 >> 5)) < 32 && (b4 & 31) < 32) by (bit_vector);
}

/// Reassembling the five bytes of a group from its eight 5-bit slices
/// gives the bytes back.
proof fn lemma_group_bytes_roundtrip(
    b0: u8,
    b1: u8,
    b2: u8,
    b3: u8,
    b4: u8,
    c0: u8,
    c1: u8,
    c2: u8,
    c3: u8,
    c4: u8,
    c5: u8,
    c6: u8,
    c7: u8,
)
    requires
        c0 == b0 >> 3,
        c1 == ((b0 & 7) << 2) | (b1 >> 6),
        c2 == (b1 >> 1) & 31,
        c3 == ((b1 & 1) << 4) | (b2 >> 4),
        c4 == ((b2 & 15) << 1) | (b3 >> 7),
        c5 == (b3 >> 2) & 31,
        c6 == ((b3 & 3) << 3) | (b4 >> 5),
        c7 == b4 & 31,
    ensures
        (c0 << 3) | (c1 >> 2) == b0,
        ((c1 & 3) << 6) | (c2 << 1) | (c3 >> 4) == b1,
        ((c3 & 15) << 4) | (c4 >> 1) == b2,
        ((c4 & 1) << 7) | (c5 << 2) | (c6 >> 3) == b3,
        ((c6 & 7) << 5) | c7 == b4,
{
    assert(((c0 << 3) | (c1 >> 2) == b0) && (((c1 & 3) << 6) | (c2 << 1) | (c3 >> 4) == b1) && (((
    c3 & 15) << 4) | (c4 >> 1) == b2) && (((c4 & 1) << 7) | (c5 << 2) | (c6 >> 3) == b3) && (((c6
        & 7) << 5) | c7 == b4)) by (bit_vector)
        requires
            c0 == b0 >> 3,
            c1 == ((b0 & 7) << 2) | (b1 >> 6),
            c2 == (b1 >> 1) & 31,
            c3 == ((b1 & 1) << 4) | (b2 >> 4),
            c4 == ((b2 & 15) << 1) | (b3 >> 7),
            c5 == (b3 >> 2) & 31,
            c6 == ((b3 & 3) << 3) | (b4 >> 5),
            c7 == b4 & 31,
    ;
}

/// Cutting the five bytes rebuilt from eight 5-bit slices back into
/// slices gives the slices back.
proof fn lemma_group_syms_roundtrip(
    b0: u8,
    b1: u8,
    b2: u8,
    b3: u8,
    b4: u8,
    c0: u8,
    c1: u8,
    c2: u8,
    c3: u8,
    c4: u8,
    c5: u8,
    c6: u8,
    c7: u8,
)
    requires
        c0 < 32,
        c1 < 32,
        c2 < 32,
        c3 < 32,
        c4 < 32,
        c5 < 32,
        c6 < 32,
        c7 < 32,
        b0 == (c0 << 3) | (c1 >> 2),
        b1 == ((c1 & 3) << 6) | (c2 << 1) | (c3 >> 4),
        b2 == ((c3 & 15) << 4) | (c4 >> 1),
        b3 == ((c4 & 1) << 7) | (c5 << 2) | (c6 >> 3),
        b4 == ((c6 & 7) << 5) | c7,
    ensures
        b0 >> 3 == c0,
        ((b0 & 7) << 2) | (b1 >> 6) == c1,
        (b1 >> 1) & 31 == c2,
        ((b1 & 1) << 4) | (b2 >> 4) == c3,
        ((b2 & 15) << 1) | (b3 >> 7) == c4,
        (b3 >> 2) & 31 == c5,
        ((b3 & 3) << 3) | (b4 >> 5) == c6,
        b4 & 31 == c7,
{
    assert((b0 >> 3 == c0) && (((b0 & 7) << 2) | (b1 >> 6) == c1) && ((b1 >> 1) & 31 == c2) && (((
    b1 & 1) << 4) | (b2 >> 4) == c3) && (((b2 & 15) << 1) | (b3 >> 7) == c4) && ((b3 >> 2) & 31
        == c5) && (((b3 & 3) << 3) | (b4 >> 5) == c6) && (b4 & 31 == c7)) by (bit_vector)
        requires
            c0 < 32,
            c1 < 32,
            c2 < 32,
            c3 < 32,
            c4 < 32,
            c5 < 32,
            c6 < 32,
            c7 < 32,
            b0 == (c0 << 3) | (c1 >> 2),
            b1 == ((c1 & 3) << 6) | (c2 << 1) | (c3 >> 4),
            b2 == ((c3 & 15) << 4) | (c4 >> 1),
            b3 == ((c4 & 1) << 7) | (c5 << 2) | (c6 >> 3),
            b4 == ((c6 & 7) << 5) | c7,
    ;
}

/// A group whose first byte grows, grows in one of its first two slices,
/// earlier slices staying equal.
proof fn lemma_group_order_0(a0: u8, a1: u8, x0: u8, x1: u8)
    requires
        a0 < x0,
    ensures
        (a0 >> 3) < (x0 >> 3) || ((a0 >> 3) == (x0 >> 3) && (((a0 & 7) << 2) | (a1 >> 6)) < (((x0
            & 7) << 2) | (x1 >> 6))),
{
    assert((a0 >> 3) < (x0 >> 3) || ((a0 >> 3) == (x0 >> 3) && (((a0 & 7) << 2) | (a1 >> 6)) < (((
    x0 & 7) << 2) | (x1 >> 6)))) by (bit_vector)
        requires
            a0 < x0,
    ;
}

/// A group whose second byte grows, the first staying equal, grows in one
/// of slices 1 to 3, earlier ones staying equal.
proof fn lemma_group_order_1(a0: u8, a1: u8, a2: u8, x1: u8, x2: u8)
    requires
        a1 < x1,
    ensures
        ({
            let ca1 = ((a0 & 7) << 2) | (a1 >> 6);
            let cx1 = ((a0 & 7) << 2) | (x1 >> 6);
            let ca2 = (a1 >> 1) & 31;
            let cx2 = (x1 >> 1) & 31;
            let ca3 = ((a1 & 1) << 4) | (a2 >> 4);
            let cx3 = ((x1 & 1) << 4) | (x2 >> 4);
            ca1 < cx1 || (ca1 == cx1 && (ca2 < cx2 || (ca2 == cx2 && ca3 < cx3)))
        }),
{
    let ca1 = ((a0 & 7) << 2) | (a1 >> 6);
    let cx1 = ((a0 & 7) << 2) | (x1 >> 6);
    let ca2 = (a1 >> 1) & 31;
    let cx2 = (x1 >> 1) & 31;
    let ca3 = ((a1 & 1) << 4) | (a2 >> 4);
    let cx3 = ((x1 & 1) << 4) | (x2 >> 4);
    assert(ca1 < cx1 || (ca1 == cx1 && (ca2 < cx2 || (ca2 == cx2 && ca3 < cx3)))) by (bit_vector)
        requires
            a1 < x1,
            ca1 == ((a0 & 7) << 2) | (a1 >> 6),
            cx1 == ((a0 & 7) << 2) | (x1 >> 6),
            ca2 == (a1 >> 1) & 31,
            cx2 == (x1 >> 1) & 31,
            ca3 == ((a1 & 1) << 4) | (a2 >> 4),
            cx3 == ((x1 & 1) << 4) | (x2 >> 4),
    ;
}

/// A group whose third byte grows, the second staying equal, grows in
/// slice 3 or 4, earlier ones staying equal.
proof fn lemma_group_order_2(a1: u8, a2: u8, a3: u8, x2: u8, x3: u8)
    requires
        a2 < x2,
    ensures
        ({
            let ca3 = ((a1 & 1) << 4) | (a2 >> 4);
            let cx3 = ((a1 & 1) << 4) | (x2 >> 4);
            let ca4 = ((a2 & 15) << 1) | (a3 >> 7);
            let cx4 = ((x2 & 15) << 1) | (x3 >> 7);
            ca3 < cx3 || (ca3 == cx3 && ca4 < cx4)
        }),
{
    let ca3 = ((a1 & 1) << 4) | (a2 >> 4);
    let cx3 = ((a1 & 1) << 4) | (x2 >> 4);
    let ca4 = ((a2 & 15) << 1) | (a3 >> 7);
    let cx4 = ((x2 & 15) << 1) | (x3 >> 7);
    assert(ca3 < cx3 || (ca3 == cx3 && ca4 < cx4)) by (bit_vector)
        requires
            a2 < x2,
            ca3 == ((a1 & 1) << 4) | (a2 >> 4),
            cx3 == ((a1 & 1) << 4) | (x2 >> 4),
            ca4 == ((a2 & 15) << 1) | (a3 >> 7),
            cx4 == ((x2 & 15) << 1) | (x3 >> 7),
    ;
}

/// A group whose fourth byte grows, the third staying equal, grows in one
/// of slices 4 to 6, earlier ones staying equal.
proof fn lemma_group_order_3(a2: u8, a3: u8, a4: u8, x3: u8, x4: u8)
    requires
        a3 < x3,
    ensures
        ({
            let ca4 = ((a2 & 15) << 1) | (a3 >> 7);
            let cx4 = ((a2 & 15) << 1) | (x3 >> 7);
            let ca5 = (a3 >> 2) & 31;
            let cx5 = (x3 >> 2) & 31;
            let ca6 = ((a3 & 3) << 3) | (a4 >> 5);
            let cx6 = ((x3 & 3) << 3) | (x4 >> 5);
            ca4 < cx4 || (ca4 == cx4 && (ca5 < cx5 || (ca5 == cx5 && ca6 < cx6)))
        }),
{
    let ca4 = ((a2 & 15) << 1) | (a3 >> 7);
    let cx4 = ((a2 & 15) << 1) | (x3 >> 7);
    let ca5 = (a3 >> 2) & 31;
    let cx5 = (x3 >> 2) & 31;
    let ca6 = ((a3 & 3) << 3) | (a4 >> 5);
    let cx6 = ((x3 & 3) << 3) | (x4 >> 5);
    assert(ca4 < cx4 || (ca4 == cx4 && (ca5 < cx5 || (ca5 == cx5 && ca6 < cx6)))) by (bit_vector)
        requires
            a3 < x3,
            ca4 == ((a2 & 15) << 1) | (a3 >> 7),
            cx4 == ((a2 & 15) << 1) | (x3 >> 7),
            ca5 == (a3 >> 2) & 31,
            cx5 == (x3 >> 2) & 31,
            ca6 == ((a3 & 3) << 3) | (a4 >> 5),
            cx6 == ((x3 & 3) << 3) | (x4 >> 5),
    ;
}

/// A group whose fifth byte grows, the fourth staying equal, grows in
/// slice 6 or 7, the earlier one staying equal.
proof fn lemma_group_order_4(a3: u8, a4: u8, x4: u8)
    requires
        a4 < x4,
    ensures
        ({
            let ca6 = ((a3 & 3) << 3) | (a4 >> 5);
            let cx6 = ((a3 & 3) << 3) | (x4 >> 5);
            ca6 < cx6 || (ca6 == cx6 && (a4 & 31) < (x4 & 31))
        }),
{
    let ca6 = ((a3 & 3) << 3) | (a4 >> 5);
    let cx6 = ((a3 & 3) << 3) | (x4 >> 5);
    assert(ca6 < cx6 || (ca6 == cx6 && (a4 & 31) < (x4 & 31))) by (bit_vector)
        requires
            a4 < x4,
            ca6 == ((a3 & 3) << 3) | (a4 >> 5),
            cx6 == ((a3 & 3) << 3) | (x4 >> 5),
    ;
}

/// An index written as `d * g + n` with `0 <= n < d` has quotient `g`
/// and remainder `n`.
proof fn lemma_index_parts(j: int, d: int, g: int, n: int)
    requires
        d > 0,
        0 <= n < d,
        j == d * g + n,
    ensures
        j / d == g,
        j % d == n,
{
    assert(j == g * d + n) by (nonlinear_arith)
        requires
            j == d * g + n,
    ;
    lemma_fundamental_div_mod_converse(j, d, g, n);
}

/// Lifts a first strictly-growing 5-bit slice to the character level:
/// if every earlier slice is equal, the textual forms are ordered.
proof fn lemma_order_witness(a: Seq<u8>, b: Seq<u8>, g: int, n: int)
    requires
        a.len() == 20,
        b.len() == 20,
        0 <= g < 4,
        0 <= n < 8,
        forall|k: int| #![trigger a[k], b[k]] 0 <= k < 5 * g ==> a[k] == b[k],
        forall|n2: int| #![trigger group_sym(a, g, n2)] 0 <= n2 < n ==> group_sym(a, g, n2)
            == group_sym(b, g, n2),
        group_sym(a, g, n) < group_sym(b, g, n),
    ensures
        lex_lt_chars(encoded(a), encoded(b)),
{
    let j = 8 * g + n;
    lemma_index_parts(j, 8, g, n);
    lemma_group_sym_bound(a, g, n);
    lemma_group_sym_bound(b, g, n);
    lemma_value_char_order(group_sym(a, g, n), group_sym(b, g, n));
    assert(encoded(a)[j] < encoded(b)[j]);
    assert forall|j2: int| 0 <= j2 < j implies #[trigger] encoded(a)[j2] == #[trigger] encoded(
        b,
    )[j2] by {
        let g2 = j2 / 8;
        let n2 = j2 % 8;
        lemma_fundamental_div_mod(j2, 8);
        if g2 < g {
            assert(a[5 * g2] == b[5 * g2]);
            assert(a[5 * g2 + 1] == b[5 * g2 + 1]);
            assert(a[5 * g2 + 2] == b[5 * g2 + 2]);
            assert(a[5 * g2 + 3] == b[5 * g2 + 3]);
            assert(a[5 * g2 + 4] == b[5 * g2 + 4]);
            assert(group_sym(a, g2, n2) == group_sym(b, g2, n2));
        } else {
            assert(g2 == g && n2 < n);
            assert(group_sym(a, g, n2) == group_sym(b, g, n2));
        }
    }
    assert(0 <= j < 32 && encoded(a)[j] < encoded(b)[j] && (forall|k: int|
        #![trigger encoded(a)[k], encoded(b)[k]]
        0 <= k < j ==> encoded(a)[k] == encoded(b)[k]));
}

/// The textual form preserves byte order: of two 20-byte values, the
/// byte-lexicographically smaller one has the character-lexicographically
/// smaller textual form.
pub proof fn lemma_encode_order(a: Seq<u8>, b: Seq<u8>)
    requires
        a.len() == 20,
        b.len() == 20,
        lex_lt_bytes(a, b),
    ensures
        lex_lt_chars(encoded(a), encoded(b)),
{
    let i = choose|i: int|
        #![trigger a[i], b[i]]
        0 <= i < a.len() && i < b.len() && a[i] < b[i] && (forall|k: int|
            #![trigger a[k], b[k]]
            0 <= k < i ==> a[k] == b[k]);
    let g = i / 5;
    let m = i % 5;
    lemma_fundamental_div_mod(i, 5);
    assert(0 <= g < 4 && 0 <= m < 5 && i == 5 * g + m);
    if m == 0 {
        lemma_group_order_0(a[5 * g], a[5 * g + 1], b[5 * g], b[5 * g + 1]);
        if group_sym(a, g, 0) < group_sym(b, g, 0) {
            lemma_order_witness(a, b, g, 0);
        } else {
            lemma_order_witness(a, b, g, 1);
        }
    } else if m == 1 {
        lemma_group_order_1(a[5 * g], a[5 * g + 1], a[5 * g + 2], b[5 * g + 1], b[5 * g + 2]);
        if group_sym(a, g, 1) < group_sym(b, g, 1) {
            lemma_order_witness(a, b, g, 1);
        } else if group_sym(a, g, 2) < group_sym(b, g, 2) {
            lemma_order_witness(a, b, g, 2);
        } else {
            lemma_order_witness(a, b, g, 3);
        }
    } else if m == 2 {
        lemma_group_order_2(a[5 * g + 1], a[5 * g + 2], a[5 * g + 3], b[5 * g + 2], b[5 * g + 3]);
        if group_sym(a, g, 3) < group_sym(b, g, 3) {
            lemma_order_witness(a, b, g, 3);
        } else {
            lemma_order_witness(a, b, g, 4);
        }
    } else if m == 3 {
        lemma_group_order_3(a[5 * g + 2], a[5 * g + 3], a[5 * g + 4], b[5 * g + 3], b[5 * g + 4]);
        if group_sym(a, g, 4) < group_sym(b, g, 4) {
            lemma_order_witness(a, b, g, 4);
        } else if group_sym(a, g, 5) < group_sym(b, g, 5) {
            lemma_order_witness(a, b, g, 5);
        } else {
            lemma_order_witness(a, b, g, 6);
        }
    } else {
        lemma_group_order_4(a[5 * g + 3], a[5 * g + 4], b[5 * g + 4]);
        if group_sym(a, g, 6) < group_sym(b, g, 6) {
            lemma_order_witness(a, b, g, 6);
        } else {
            lemma_order_witness(a, b, g, 7);
        }
    }
}

/// Decoding the textual form of any 20 bytes gives those bytes back,
/// and that textual form is 32 alphabet characters.
pub proof fn lemma_decode_encode(bs: Seq<u8>)
    requires
        bs.len() == 20,
    ensures
        text_valid(encoded(bs)),
        decoded(encoded(bs)) == bs,
{
    let vals = char_values(encoded(bs));
    assert forall|j: int| 0 <= j < 32 implies is_alphabet_char(#[trigger] encoded(bs)[j]) && vals[j]
        == sym_at(bs, j) by {
        lemma_group_sym_bound(bs, j / 8, j % 8);
        lemma_char_of_value(sym_at(bs, j));
    }
    assert forall|i: int| 0 <= i < 20 implies decoded(encoded(bs))[i] == bs[i] by {
        let g = i / 5;
        let m = i % 5;
        lemma_fundamental_div_mod(i, 5);
        assert forall|n: int| 0 <= n < 8 implies vals[8 * g + n] == group_sym(bs, g, n) by {
            lemma_index_parts(8 * g + n, 8, g, n);
        }
        lemma_group_bytes_roundtrip(
            bs[5 * g],
            bs[5 * g + 1],
            bs[5 * g + 2],
            bs[5 * g + 3],
            bs[5 * g + 4],
            vals[8 * g],
            vals[8 * g + 1],
            vals[8 * g + 2],
            vals[8 * g + 3],
            vals[8 * g + 4],
            vals[8 * g + 5],
            vals[8 * g + 6],
            vals[8 * g + 7],
        );
    }
    assert(decoded(encoded(bs)) =~= bs);
}

/// Encoding the bytes named by any 32 alphabet characters gives those
/// characters back.
pub proof fn lemma_encode_decode(s: Seq<char>)
    requires
        text_valid(s),
    ensures
        encoded(decoded(s)) == s,
{
    let vals = char_values(s);
    let bs = decoded(s);
    assert forall|j: int| 0 <= j < 32 implies vals[j] < 32 && value_char(#[trigger] vals[j])
        == s[j] by {
        lemma_value_of_char(s[j]);
    }
    assert forall|j: int| 0 <= j < 32 implies encoded(bs)[j] == s[j] by {
        let g = j / 8;
        let n = j % 8;
        lemma_fundamental_div_mod(j, 8);
        assert forall|m: int| 0 <= m < 5 implies bs[5 * g + m] == group_byte(vals, g, m) by {
            lemma_index_parts(5 * g + m, 5, g, m);
        }
        lemma_group_syms_roundtrip(
            bs[5 * g],
            bs[5 * g + 1],
            bs[5 * g + 2],
            bs[5 * g + 3],
            bs[5 * g + 4],
            vals[8 * g],
            vals[8 * g + 1],
            vals[8 * g + 2],
            vals[8 * g + 3],
            vals[8 * g + 4],
            vals[8 * g + 5],
            vals[8 * g + 6],
            vals[8 * g + 7],
        );
    }
    assert(encoded(bs) =~= s);
}

} // verus!
