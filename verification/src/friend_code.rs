//! The human-facing friend code: a 16-symbol Crockford Base32 string
//! whose last symbol is a Verhoeff check symbol over the dihedral group
//! D16, encoding a 75-bit identifier carried as 10 big-endian bytes.
use vstd::prelude::*;
use crate::text::string_from_chars;
use crate::dihedral::{dmul, dinv, sigma_pow, sigma_pow_spec, vrange, all_elements, dihedral_mul, dihedral_inv};

verus! {

/// Crockford Base32 alphabet (no I, L, O, U), as bytes.
pub const CROCKFORD: [u8; 32] = [48, 49, 50, 51, 52, 53, 54, 55, 56, 57, 65, 66, 67, 68, 69, 70, 71, 72, 74, 75, 77, 78, 80, 81, 82, 83, 84, 86, 87, 88, 89, 90];

/// The same alphabet, as characters.
const ALPHABET: [char; 32] = ['0', '1', '2', '3', '4', '5', '6', '7', '8', '9', 'A', 'B', 'C', 'D', 'E', 'F', 'G', 'H', 'J', 'K', 'M', 'N', 'P', 'Q', 'R', 'S', 'T', 'V', 'W', 'X', 'Y', 'Z'];

/// Body symbols: 15 × 5 bits = 75 bits.
pub const BODY_SYMBOLS: usize = 15;
/// Body symbols plus the check symbol.
pub const CODE_LEN: usize = 16;
/// Canonical wire width: the 75-bit value, big-endian, top 5 bits zero.
pub const BYTE_LEN: usize = 10;

/// The symbol written for the value `v < 32`.
pub open spec fn symbol_char_spec(v: u32) -> char {
    if v == 0 { '0' } else
    if v == 1 { '1' } else
    if v == 2 { '2' } else
    if v == 3 { '3' } else
    if v == 4 { '4' } else
    if v == 5 { '5' } else
    if v == 6 { '6' } else
    if v == 7 { '7' } else
    if v == 8 { '8' } else
    if v == 9 { '9' } else
    if v == 10 { 'A' } else
    if v == 11 { 'B' } else
    if v == 12 { 'C' } else
    if v == 13 { 'D' } else
    if v == 14 { 'E' } else
    if v == 15 { 'F' } else
    if v == 16 { 'G' } else
    if v == 17 { 'H' } else
    if v == 18 { 'J' } else
    if v == 19 { 'K' } else
    if v == 20 { 'M' } else
    if v == 21 { 'N' } else
    if v == 22 { 'P' } else
    if v == 23 { 'Q' } else
    if v == 24 { 'R' } else
    if v == 25 { 'S' } else
    if v == 26 { 'T' } else
    if v == 27 { 'V' } else
    if v == 28 { 'W' } else
    if v == 29 { 'X' } else
    if v == 30 { 'Y' } else { 'Z' }
}

/// The value of an alphabet symbol; `None` for anything else.
pub open spec fn symbol_value_spec(c: char) -> Option<u32> {
    match c {
        '0' => Some(0u32),
        '1' => Some(1u32),
        '2' => Some(2u32),
        '3' => Some(3u32),
        '4' => Some(4u32),
        '5' => Some(5u32),
        '6' => Some(6u32),
        '7' => Some(7u32),
        '8' => Some(8u32),
        '9' => Some(9u32),
        'A' => Some(10u32),
        'B' => Some(11u32),
        'C' => Some(12u32),
        'D' => Some(13u32),
        'E' => Some(14u32),
        'F' => Some(15u32),
        'G' => Some(16u32),
        'H' => Some(17u32),
        'J' => Some(18u32),
        'K' => Some(19u32),
        'M' => Some(20u32),
        'N' => Some(21u32),
        'P' => Some(22u32),
        'Q' => Some(23u32),
        'R' => Some(24u32),
        'S' => Some(25u32),
        'T' => Some(26u32),
        'V' => Some(27u32),
        'W' => Some(28u32),
        'X' => Some(29u32),
        'Y' => Some(30u32),
        'Z' => Some(31u32),
        _ => None,
    }
}

/// Writing a value and reading it back agree, in both directions.
pub proof fn lemma_symbol_roundtrip(v: u32, c: char)
    ensures
        v < 32 ==> symbol_value_spec(symbol_char_spec(v)) == Some(v),
        symbol_value_spec(c) matches Some(w) ==> w < 32 && symbol_char_spec(w) == c,
        symbol_value_spec(c) is Some ==> upper_spec(c) == c && c != '-' && c != ' ' && c != '_'
            && c != 'I' && c != 'L' && c != 'O',
{
}

/// The alphabet symbol for `v`.
pub fn symbol_char(v: u32) -> (c: char)
    requires
        v < 32,
    ensures
        c == symbol_char_spec(v),
{
    let table = ALPHABET;
    table[v as usize]
}

/// Index of a symbol in the Crockford alphabet.
pub fn symbol_value(c: char) -> (r: Option<u32>)
    ensures
        r == symbol_value_spec(c),
{
    let table = ALPHABET;
    let mut i: usize = 0;
    while i < 32
        invariant
            i <= 32,
            table@ == ALPHABET@,
            forall|k: u32| k < i ==> #[trigger] symbol_char_spec(k) != c,
        decreases 32 - i,
    {
        proof {
            lemma_symbol_roundtrip(i as u32, c);
        }
        if table[i] == c {
            return Some(i as u32);
        }
        i = i + 1;
    }
    proof {
        lemma_symbol_roundtrip(0, c);
        if let Some(w) = symbol_value_spec(c) {
            assert(symbol_char_spec(w) == c);
        }
    }
    None
}

/// ASCII upper-casing of a character.
pub open spec fn upper_spec(c: char) -> char {
    if 'a' <= c && c <= 'z' {
        ((c as u32) - 32) as char
    } else {
        c
    }
}

fn to_ascii_upper(c: char) -> (r: char)
    ensures
        r == upper_spec(c),
{
    if 'a' <= c && c <= 'z' {
        (((c as u32) - 32) as u8) as char
    } else {
        c
    }
}


/// `2^75 - 1`: the identifier's bits.
pub open spec fn mask75() -> u128 {
    0x7ff_ffff_ffff_ffff_ffffu128
}

/// Byte `i` (0 = most significant) of the 10-byte big-endian form of `m`.
pub open spec fn be_byte(m: u128, i: int) -> u8 {
    (m >> ((8 * (9 - i)) as u128)) as u8
}

/// The canonical bytes of the identifier `v`: its low 75 bits, big-endian.
pub open spec fn from_value_spec(v: u128) -> Seq<u8> {
    Seq::new(10, |i: int| be_byte(v & mask75(), i))
}

/// The big-endian value of a byte string.
pub open spec fn bytes_value(b: Seq<u8>) -> u128
    decreases b.len(),
{
    if b.len() == 0 {
        0
    } else {
        (bytes_value(b.drop_last()) << 8u128) | (b.last() as u128)
    }
}

/// A 75-bit friend code, stored as its canonical 10 big-endian bytes.
#[derive(Clone, Copy, PartialEq, Eq, Hash, PartialOrd, Ord, Debug)]
pub struct FriendCode([u8; 10]);

impl View for FriendCode {
    type V = Seq<u8>;

    closed spec fn view(&self) -> Seq<u8> {
        self.0@
    }
}

/// Why a friend code was refused.
#[derive(Debug, PartialEq, Eq, Clone, Copy)]
pub enum FriendCodeError {
    /// The code doesn't have [`CODE_LEN`] symbols; carries how many it has.
    WrongLength(usize),
    /// A character that is neither a symbol, an alias nor a separator.
    BadSymbol(char),
    /// The check symbol doesn't match the body.
    BadChecksum,
    /// The wire form isn't [`BYTE_LEN`] bytes; carries how many it has.
    WrongByteLen(usize),
}

fn byte_at(m: u128, i: u32) -> (b: u8)
    requires
        i < 10,
    ensures
        b == be_byte(m, i as int),
{
    (m >> (8 * (9 - i))) as u8
}

proof fn lemma_byte_step(m: u128, t: u128)
    requires
        t <= 72,
    ensures
        ((m >> (t + 8)) << 8u128) | ((m >> t) as u8 as u128) == m >> t,
{
    assert(t <= 72 ==> ((m >> (t + 8)) << 8u128) | ((m >> t) as u8 as u128) == m >> t) by (bit_vector);
}

/// The value of the first `k` canonical bytes of `v`.
proof fn lemma_value_prefix(v: u128, k: int)
    requires
        0 <= k <= 10,
    ensures
        bytes_value(from_value_spec(v).take(k)) == (v & mask75()) >> ((8 * (10 - k)) as u128),
    decreases k,
{
    let m = v & mask75();
    let b = from_value_spec(v);
    if k == 0 {
        assert(b.take(0) =~= Seq::<u8>::empty());
        assert(m >> 80u128 == 0) by (bit_vector)
            requires
                m == v & 0x7ff_ffff_ffff_ffff_ffffu128,
        ;
    } else {
        lemma_value_prefix(v, k - 1);
        assert(b.take(k).drop_last() =~= b.take(k - 1));
        lemma_byte_step(m, (8 * (10 - k)) as u128);
    }
}

proof fn lemma_prefix_bytes(b: Seq<u8>)
    requires
        1 <= b.len() <= 10,
    ensures
        bytes_value(b) >> ((8 * b.len()) as u128) == 0,
        forall|i: int| 0 <= i < b.len() ==> #[trigger] b[i] == (bytes_value(b) >> ((8 * (b.len() - 1 - i)) as u128)) as u8,
    decreases b.len(),
{
    let d = b.drop_last();
    let y = b.last();
    let x = bytes_value(b);
    let k = b.len();
    if k == 1 {
        assert(d =~= Seq::<u8>::empty());
        assert(bytes_value(d) == 0);
        assert(x == (0u128 << 8u128) | (y as u128));
        assert(((0u128 << 8u128) | (y as u128)) >> 8u128 == 0 && ((0u128 << 8u128) | (y as u128)) >> 0u128 == y as u128) by (bit_vector);
        assert(((y as u128) as u8) == y) by (bit_vector);
    } else {
        lemma_prefix_bytes(d);
        let p = bytes_value(d);
        let sd = (8 * d.len()) as u128;
        assert(x == (p << 8u128) | (y as u128));
        assert(sd <= 72 && p >> sd == 0 ==> ((p << 8u128) | (y as u128)) >> (sd + 8) == 0) by (bit_vector);
        assert(((p << 8u128) | (y as u128)) as u8 == y) by (bit_vector);
        assert(((p << 8u128) | (y as u128)) >> 0u128 == (p << 8u128) | (y as u128)) by (bit_vector);
        assert forall|i: int| 0 <= i < k implies #[trigger] b[i] == (x >> ((8 * (k - 1 - i)) as u128)) as u8 by {
            if i < k - 1 {
                let t = (8 * (k - 2 - i)) as u128;
                assert(d[i] == b[i]);
                assert(d[i] == (p >> t) as u8);
                assert(t <= 64 && sd <= 72 && p >> sd == 0 ==> ((p << 8u128) | (y as u128)) >> (t + 8) == p >> t) by (bit_vector);
            }
        }
    }
}

/// Canonical bytes, those of a value below 2^75, are what `from_value`
/// gives for their value.
proof fn lemma_canonical_bytes(b: Seq<u8>)
    requires
        b.len() == 10,
        b[0] < 8,
    ensures
        from_value_spec(bytes_value(b)) == b,
{
    lemma_prefix_bytes(b);
    let x = bytes_value(b);
    let y = b[0];
    assert(x >> 80u128 == 0);
    assert(y == (x >> 72u128) as u8);
    assert(x >> 80u128 == 0 && ((x >> 72u128) as u8) < 8 ==> x & 0x7ff_ffff_ffff_ffff_ffffu128 == x) by (bit_vector);
    assert forall|i: int| 0 <= i < 10 implies #[trigger] from_value_spec(x)[i] == b[i] by {
        assert(b[i] == (x >> ((8 * (9 - i)) as u128)) as u8);
    }
    assert(from_value_spec(x) =~= b);
}

/// The value of the canonical bytes of `v` is `v` with its high bits cleared.
pub proof fn lemma_value_of_from_value(v: u128)
    ensures
        bytes_value(from_value_spec(v)) == v & mask75(),
{
    let m = v & mask75();
    lemma_value_prefix(v, 10);
    assert(from_value_spec(v).take(10) =~= from_value_spec(v));
    assert(m >> 0u128 == m) by (bit_vector);
}

/// Clearing the high bits twice is clearing them once.
pub proof fn lemma_from_value_masked(v: u128)
    ensures
        from_value_spec(v & mask75()) == from_value_spec(v),
{
    assert((v & 0x7ff_ffff_ffff_ffff_ffffu128) & 0x7ff_ffff_ffff_ffff_ffffu128
        == v & 0x7ff_ffff_ffff_ffff_ffffu128) by (bit_vector);
    assert(from_value_spec(v & mask75()) =~= from_value_spec(v));
}

impl FriendCode {
    /// Build from a raw 75-bit value (higher bits are masked off).
    pub fn from_value(value: u128) -> (fc: Self)
        ensures
            fc@ == from_value_spec(value),
    {
        let m = value & 0x7ff_ffff_ffff_ffff_ffffu128;
        let fc = FriendCode(
            [
                byte_at(m, 0),
                byte_at(m, 1),
                byte_at(m, 2),
                byte_at(m, 3),
                byte_at(m, 4),
                byte_at(m, 5),
                byte_at(m, 6),
                byte_at(m, 7),
                byte_at(m, 8),
                byte_at(m, 9),
            ],
        );
        assert(fc@ =~= from_value_spec(value));
        fc
    }

    /// The value the 10 bytes spell, big-endian.
    pub fn value(&self) -> (v: u128)
        ensures
            v == bytes_value(self@),
    {
        let mut acc: u128 = 0;
        let mut i: usize = 0;
        assert(self@.take(0) =~= Seq::<u8>::empty());
        while i < 10
            invariant
                i <= 10,
                self@.len() == 10,
                acc == bytes_value(self@.take(i as int)),
            decreases 10 - i,
        {
            assert(self@.take(i + 1).drop_last() =~= self@.take(i as int));
            acc = (acc << 8u128) | (self.0[i] as u128);
            i = i + 1;
        }
        assert(self@.take(10) =~= self@);
        acc
    }

    /// The canonical 10 wire bytes.
    pub fn as_bytes(&self) -> (b: &[u8; 10])
        ensures
            b@ == self@,
    {
        &self.0
    }

    /// The canonical 10 wire bytes, owned.
    pub fn to_vec(&self) -> (v: Vec<u8>)
        ensures
            v@ == self@,
    {
        let mut v: Vec<u8> = Vec::new();
        let mut i: usize = 0;
        while i < 10
            invariant
                i <= 10,
                self@.len() == 10,
                v@ == self@.take(i as int),
            decreases 10 - i,
        {
            v.push(self.0[i]);
            i = i + 1;
            assert(v@ =~= self@.take(i as int));
        }
        assert(self@.take(10) =~= self@);
        v
    }

    /// Parse the 10 raw wire bytes received from the server. A friend
    /// code is a 75-bit value, so the top 5 bits of the first byte are
    /// cleared, as [`FriendCode::from_value`] clears them: the result is
    /// always a canonical code, and canonical bytes come back as they are.
    pub fn from_bytes(bytes: &[u8]) -> (r: Result<Self, FriendCodeError>)
        ensures
            bytes@.len() == 10 ==> (r matches Ok(fc) && fc@ == from_value_spec(bytes_value(bytes@))
                && bytes_value(fc@) == bytes_value(bytes@) & mask75() && bytes_value(fc@) < 1u128 << 75u128),
            bytes@.len() == 10 && bytes@[0] < 8 ==> (r matches Ok(fc) && fc@ == bytes@),
            bytes@.len() != 10 ==> r == Err::<Self, FriendCodeError>(
                FriendCodeError::WrongByteLen(bytes@.len() as usize),
            ),
    {
        if bytes.len() != 10 {
            return Err(FriendCodeError::WrongByteLen(bytes.len()));
        }
        let raw = FriendCode(
            [
                bytes[0],
                bytes[1],
                bytes[2],
                bytes[3],
                bytes[4],
                bytes[5],
                bytes[6],
                bytes[7],
                bytes[8],
                bytes[9],
            ],
        );
        assert(raw@ =~= bytes@);
        let v = raw.value();
        let fc = FriendCode::from_value(v);
        proof {
            lemma_value_of_from_value(v);
            let m = v & mask75();
            assert(m < 1u128 << 75u128) by (bit_vector)
                requires
                    m == v & 0x7ff_ffff_ffff_ffff_ffffu128,
            ;
            if bytes@[0] < 8 {
                lemma_canonical_bytes(bytes@);
            }
        }
        Ok(fc)
    }
}


/// The values of a string of alphabet symbols.
pub open spec fn symbols_of(s: Seq<char>) -> Seq<u32> {
    s.map_values(|c: char| symbol_value_spec(c).unwrap())
}

/// Every character of `s` is a symbol of the alphabet.
pub open spec fn all_symbols(s: Seq<char>) -> bool {
    forall|i: int| 0 <= i < s.len() ==> (#[trigger] symbol_value_spec(s[i])) is Some
}

/// The Verhoeff product over the first `k` factors of `body`, folding from
/// its last symbol, which sits at position 1 (the check symbol is at 0).
pub open spec fn body_acc(body: Seq<u32>, k: int) -> u32
    decreases k,
{
    if k <= 0 {
        0
    } else {
        dmul(body_acc(body, k - 1), sigma_pow_spec(k as nat, body[body.len() - k]))
    }
}

/// The check symbol's value for a body: the inverse of its product, so
/// that the whole code multiplies out to the identity.
pub open spec fn check_value(body: Seq<u32>) -> u32 {
    dinv(body_acc(body, body.len() as int))
}

/// A full code (body then check symbol) whose check symbol matches.
pub open spec fn code_valid(syms: Seq<u32>) -> bool {
    syms.len() == CODE_LEN && check_value(syms.take(BODY_SYMBOLS as int)) == syms[BODY_SYMBOLS as int]
}

proof fn lemma_body_acc_bound(body: Seq<u32>, k: int)
    requires
        all_elements(body),
        k <= body.len(),
    ensures
        body_acc(body, k) < 32,
    decreases k,
{
    if k > 0 {
        lemma_body_acc_bound(body, k - 1);
        crate::dihedral::lemma_sigma_pow(k as nat, body[body.len() - k], body[body.len() - k]);
        crate::dihedral::lemma_mul_facts(body_acc(body, k - 1), sigma_pow_spec(k as nat, body[body.len() - k]));
    }
}

proof fn lemma_acc_is_vrange(syms: Seq<u32>, k: int)
    requires
        syms.len() == 16,
        0 <= k <= 15,
    ensures
        vrange(syms.reverse(), 1, k + 1) == body_acc(syms.take(15), k),
    decreases k,
{
    if k > 0 {
        lemma_acc_is_vrange(syms, k - 1);
        assert(syms.reverse()[k] == syms.take(15)[15 - k]);
    }
}

/// A code is valid exactly when the Verhoeff product over all of its
/// positions, counted from the check symbol, is the identity.
pub proof fn lemma_valid_iff_product(syms: Seq<u32>)
    requires
        syms.len() == 16,
        all_elements(syms),
    ensures
        code_valid(syms) <==> vrange(syms.reverse(), 0, 16) == 0,
{
    let t = syms.reverse();
    let body = syms.take(15);
    assert(all_elements(t));
    assert(all_elements(body));
    lemma_acc_is_vrange(syms, 15);
    crate::dihedral::lemma_vrange_split(t, 0, 1, 16);
    assert(vrange(t, 0, 1) == dmul(vrange(t, 0, 0), t[0]));
    crate::dihedral::lemma_mul_facts(t[0], t[0]);
    lemma_body_acc_bound(body, 15);
    let a = body_acc(body, 15);
    let c = syms[15];
    assert(forall|c: u32, a: u32| c < 32 && a < 32 ==> (dmul(c, a) == 0 <==> c == dinv(a))) by (bit_vector);
}

/// Changing one symbol of a valid code makes it invalid.
pub proof fn lemma_detects_substitution(syms: Seq<u32>, j: int, v: u32)
    requires
        syms.len() == 16,
        all_elements(syms),
        code_valid(syms),
        0 <= j < 16,
        v < 32,
        v != syms[j],
    ensures
        !code_valid(syms.update(j, v)),
{
    let u = syms.update(j, v);
    assert(all_elements(u));
    lemma_valid_iff_product(syms);
    lemma_valid_iff_product(u);
    assert(all_elements(syms.reverse()));
    assert(all_elements(u.reverse()));
    crate::dihedral::lemma_single_change(syms.reverse(), u.reverse(), 15 - j);
}

/// Swapping two adjacent, distinct symbols of a valid code makes it
/// invalid, including the swap across the body/check boundary.
pub proof fn lemma_detects_transposition(syms: Seq<u32>, j: int)
    requires
        syms.len() == 16,
        all_elements(syms),
        code_valid(syms),
        0 <= j < 15,
        syms[j] != syms[j + 1],
    ensures
        !code_valid(syms.update(j, syms[j + 1]).update(j + 1, syms[j])),
{
    let u = syms.update(j, syms[j + 1]).update(j + 1, syms[j]);
    assert(all_elements(u));
    lemma_valid_iff_product(syms);
    lemma_valid_iff_product(u);
    assert(all_elements(syms.reverse()));
    assert(all_elements(u.reverse()));
    crate::dihedral::lemma_adjacent_swap(syms.reverse(), u.reverse(), 14 - j);
}

/// Verhoeff (dihedral D16) check symbol over a body of alphabet symbols.
/// Folds the body right-to-left as `∏ σⁱ(symbolᵢ)`, position `i` counted
/// from the check symbol, and returns the symbol of the product's inverse.
pub fn verhoeff_check(body: &[char]) -> (c: char)
    requires
        all_symbols(body@),
    ensures
        c == symbol_char_spec(check_value(symbols_of(body@))),
{
    let n = body.len();
    let ghost vals = symbols_of(body@);
    let mut acc: u32 = 0;
    let mut i: usize = 0;
    while i < n
        invariant
            i <= n,
            n == body@.len(),
            vals == symbols_of(body@),
            all_symbols(body@),
            acc == body_acc(vals, i as int),
            acc < 32,
        decreases n - i,
    {
        let c = body[n - 1 - i];
        assert(symbol_value_spec(body@[n - 1 - i]) is Some);
        let cp = symbol_value(c).unwrap();
        proof {
            lemma_symbol_roundtrip(0, c);
        }
        let f = sigma_pow(i + 1, cp);
        acc = dihedral_mul(acc, f);
        i = i + 1;
    }
    let inv = dihedral_inv(acc);
    symbol_char(inv)
}


/// Input normalization, one character at a time: separators are dropped,
/// letters upper-cased, the ambiguous aliases folded (I/L to 1, O to 0).
/// The first character that is none of these is the error.
pub open spec fn normalize(s: Seq<char>) -> Result<Seq<char>, char>
    decreases s.len(),
{
    if s.len() == 0 {
        Ok(Seq::empty())
    } else {
        match normalize(s.drop_last()) {
            Err(e) => Err(e),
            Ok(p) => {
                let u = upper_spec(s.last());
                if u == '-' || u == ' ' || u == '_' {
                    Ok(p)
                } else if u == 'I' || u == 'L' {
                    Ok(p.push('1'))
                } else if u == 'O' {
                    Ok(p.push('0'))
                } else if symbol_value_spec(u) is Some {
                    Ok(p.push(u))
                } else {
                    Err(u)
                }
            },
        }
    }
}

/// Symbols folded into a number, most significant first, 5 bits each.
pub open spec fn fold5(s: Seq<u32>) -> u128
    decreases s.len(),
{
    if s.len() == 0 {
        0
    } else {
        (fold5(s.drop_last()) << 5u128) | (s.last() as u128)
    }
}

/// What parsing a friend code gives: its canonical bytes, or why it was
/// refused.
pub open spec fn spec_parse(s: Seq<char>) -> Result<Seq<u8>, FriendCodeError> {
    match normalize(s) {
        Err(c) => Err(FriendCodeError::BadSymbol(c)),
        Ok(symbols) => if symbols.len() != CODE_LEN {
            Err(FriendCodeError::WrongLength(symbols.len() as usize))
        } else if !code_valid(symbols_of(symbols)) {
            Err(FriendCodeError::BadChecksum)
        } else {
            Ok(from_value_spec(fold5(symbols_of(symbols).take(BODY_SYMBOLS as int))))
        },
    }
}

/// The 15 body symbols of a value, most significant first.
pub open spec fn body_symbols(v: u128) -> Seq<u32> {
    Seq::new(15, |j: int| ((v >> ((5 * (14 - j)) as u128)) & 31u128) as u32)
}

/// The 16 symbols of a value's code: its body, then the check symbol.
pub open spec fn code_symbols(v: u128) -> Seq<u32> {
    body_symbols(v).push(check_value(body_symbols(v)))
}

/// Symbols grouped into runs of four separated by hyphens.
pub open spec fn grouped(code: Seq<char>) -> Seq<char> {
    Seq::new(
        (code.len() + (code.len() - 1) / 4) as nat,
        |i: int| if i % 5 == 4 { '-' } else { code[i - i / 5] },
    )
}

/// A friend code's display form, `XXXX-XXXX-XXXX-XXXX`.
pub open spec fn spec_display(b: Seq<u8>) -> Seq<char> {
    grouped(code_symbols(bytes_value(b)).map_values(|v: u32| symbol_char_spec(v)))
}

/// Once normalization has failed on a prefix, it fails the same way on
/// every extension of it.
proof fn lemma_normalize_error_sticks(s: Seq<char>, i: int, e: char)
    requires
        0 <= i <= s.len(),
        normalize(s.take(i)) == Err::<Seq<char>, char>(e),
    ensures
        normalize(s) == Err::<Seq<char>, char>(e),
    decreases s.len() - i,
{
    if i < s.len() {
        assert(s.take(i + 1).drop_last() =~= s.take(i));
        lemma_normalize_error_sticks(s, i + 1, e);
    } else {
        assert(s.take(i) =~= s);
    }
}

fn push_fold5(acc: u128, v: u32) -> (r: u128)
    ensures
        r == (acc << 5u128) | (v as u128),
{
    (acc << 5u128) | (v as u128)
}

impl FriendCode {
    /// Parse a friend code as a person would type it: separators (`-`,
    /// space, `_`) anywhere, any case, and `I`/`L`/`O` read as `1`/`1`/`0`.
    pub fn parse(s: &str) -> (r: Result<Self, FriendCodeError>)
        ensures
            r matches Ok(fc) ==> spec_parse(s@) == Ok::<Seq<u8>, FriendCodeError>(fc@),
            r matches Err(e) ==> spec_parse(s@) == Err::<Seq<u8>, FriendCodeError>(e),
    {
        let n = s.unicode_len();
        let mut symbols: Vec<char> = Vec::new();
        let mut i: usize = 0;
        assert(s@.take(0) =~= Seq::<char>::empty());
        while i < n
            invariant
                i <= n,
                n == s@.len(),
                normalize(s@.take(i as int)) == Ok::<Seq<char>, char>(symbols@),
            decreases n - i,
        {
            let c = to_ascii_upper(s.get_char(i));
            assert(s@.take(i + 1).drop_last() =~= s@.take(i as int));
            assert(s@.take(i + 1).last() == s@[i as int]);
            if c == '-' || c == ' ' || c == '_' {
            } else if c == 'I' || c == 'L' {
                symbols.push('1');
            } else if c == 'O' {
                symbols.push('0');
            } else if symbol_value(c).is_some() {
                symbols.push(c);
            } else {
                proof {
                    lemma_normalize_error_sticks(s@, i + 1, c);
                }
                return Err(FriendCodeError::BadSymbol(c));
            }
            i = i + 1;
        }
        assert(s@.take(n as int) =~= s@);
        if symbols.len() != 16 {
            return Err(FriendCodeError::WrongLength(symbols.len()));
        }
        assert(all_symbols(symbols@)) by {
            lemma_normalized_symbols(s@);
        }
        let mut body: Vec<char> = Vec::new();
        let mut k: usize = 0;
        while k < 15
            invariant
                k <= 15,
                symbols@.len() == 16,
                body@ == symbols@.take(k as int),
            decreases 15 - k,
        {
            body.push(symbols[k]);
            k = k + 1;
            assert(body@ =~= symbols@.take(k as int));
        }
        assert(all_symbols(body@));
        let check = verhoeff_check(body.as_slice());
        proof {
            let syms = symbols_of(symbols@);
            assert(symbols_of(body@) =~= syms.take(15));
            lemma_symbol_roundtrip(0, symbols@[15]);
            lemma_body_acc_bound(syms.take(15), 15);
            lemma_symbol_roundtrip(check_value(syms.take(15)), symbols@[15]);
        }
        if check != symbols[15] {
            return Err(FriendCodeError::BadChecksum);
        }
        let ghost body_vals = symbols_of(body@);
        let mut value: u128 = 0;
        let mut j: usize = 0;
        assert(body_vals.take(0) =~= Seq::<u32>::empty());
        while j < 15
            invariant
                j <= 15,
                body@.len() == 15,
                all_symbols(body@),
                body_vals == symbols_of(body@),
                value == fold5(body_vals.take(j as int)),
            decreases 15 - j,
        {
            assert(symbol_value_spec(body@[j as int]) is Some);
            let v = symbol_value(body[j]).unwrap();
            assert(body_vals.take(j + 1).drop_last() =~= body_vals.take(j as int));
            value = push_fold5(value, v);
            j = j + 1;
        }
        assert(body_vals.take(15) =~= body_vals);
        proof {
            assert(symbols_of(symbols@).take(15) =~= body_vals);
        }
        Ok(FriendCode::from_value(value))
    }
}

/// Whatever normalization produces is made of alphabet symbols.
proof fn lemma_normalized_symbols(s: Seq<char>)
    ensures
        normalize(s) matches Ok(p) ==> all_symbols(p),
    decreases s.len(),
{
    if s.len() > 0 {
        lemma_normalized_symbols(s.drop_last());
    }
}


/// The characters of a symbol sequence.
pub open spec fn chars_of(v: Seq<u32>) -> Seq<char> {
    v.map_values(|x: u32| symbol_char_spec(x))
}

proof fn lemma_symbol_chars(v: Seq<u32>)
    requires
        all_elements(v),
    ensures
        all_symbols(chars_of(v)),
        symbols_of(chars_of(v)) == v,
{
    assert forall|i: int| 0 <= i < v.len() implies (#[trigger] symbol_value_spec(chars_of(v)[i])) is Some by {
        lemma_symbol_roundtrip(v[i], ' ');
    }
    assert forall|i: int| 0 <= i < v.len() implies symbols_of(chars_of(v))[i] == v[i] by {
        lemma_symbol_roundtrip(v[i], ' ');
    }
    assert(symbols_of(chars_of(v)) =~= v);
}

proof fn lemma_body_symbols_bound(v: u128)
    ensures
        all_elements(body_symbols(v)),
        all_elements(code_symbols(v)),
        code_valid(code_symbols(v)),
{
    let b = body_symbols(v);
    assert forall|j: int| 0 <= j < 15 implies #[trigger] b[j] < 32 by {
        let sh = (5 * (14 - j)) as u128;
        assert((((v >> sh) & 31u128) as u32) < 32) by (bit_vector);
    }
    lemma_body_acc_bound(b, 15);
    assert(dinv(body_acc(b, 15)) < 32) by {
        crate::dihedral::lemma_group_laws();
    }
    assert(code_symbols(v).take(15) =~= b);
}

proof fn lemma_fold5_step(v: u128, t: u128)
    requires
        t <= 70,
    ensures
        ((v >> (t + 5)) << 5u128) | (((v >> t) & 31u128) as u32 as u128) == v >> t,
{
    assert(t <= 70 ==> ((v >> (t + 5)) << 5u128) | (((v >> t) & 31u128) as u32 as u128) == v >> t)
        by (bit_vector);
}

proof fn lemma_fold5_prefix(v: u128, k: int)
    requires
        0 <= k <= 15,
    ensures
        fold5(body_symbols(v).take(k)) == ((v & mask75()) >> ((5 * (15 - k)) as u128)),
    decreases k,
{
    let b = body_symbols(v);
    let m = v & mask75();
    if k == 0 {
        assert(b.take(0) =~= Seq::<u32>::empty());
        assert(m >> 75u128 == 0) by (bit_vector)
            requires
                m == v & 0x7ff_ffff_ffff_ffff_ffffu128,
        ;
    } else {
        lemma_fold5_prefix(v, k - 1);
        assert(b.take(k).drop_last() =~= b.take(k - 1));
        let t = (5 * (15 - k)) as u128;
        lemma_fold5_step(m, t);
        assert(((v >> t) & 31u128) == ((m >> t) & 31u128)) by (bit_vector)
            requires
                m == v & 0x7ff_ffff_ffff_ffff_ffffu128,
                t <= 70,
        ;
    }
}

/// Folding a value's body symbols back gives its low 75 bits.
proof fn lemma_fold5_body(v: u128)
    ensures
        fold5(body_symbols(v)) == v & mask75(),
{
    lemma_fold5_prefix(v, 15);
    assert(body_symbols(v).take(15) =~= body_symbols(v));
    let m = v & mask75();
    assert(m >> 0u128 == m) by (bit_vector);
}

/// The characters of an all-symbol string normalize to themselves.
proof fn lemma_normalize_symbols(s: Seq<char>)
    requires
        all_symbols(s),
    ensures
        normalize(s) == Ok::<Seq<char>, char>(s),
    decreases s.len(),
{
    if s.len() > 0 {
        assert(all_symbols(s.drop_last()));
        lemma_normalize_symbols(s.drop_last());
        assert(symbol_value_spec(s[s.len() - 1]) is Some);
        lemma_symbol_roundtrip(0, s.last());
        assert(s.drop_last().push(s.last()) =~= s);
    } else {
        assert(s =~= Seq::<char>::empty());
    }
}

proof fn lemma_normalize_grouped_prefix(code: Seq<char>, k: int)
    requires
        code.len() == 16,
        all_symbols(code),
        0 <= k <= 19,
    ensures
        normalize(grouped(code).take(k)) == Ok::<Seq<char>, char>(code.take(k - k / 5)),
    decreases k,
{
    let g = grouped(code);
    if k == 0 {
        assert(g.take(0) =~= Seq::<char>::empty());
        assert(code.take(0) =~= Seq::<char>::empty());
    } else {
        lemma_normalize_grouped_prefix(code, k - 1);
        assert(g.take(k).drop_last() =~= g.take(k - 1));
        let i = k - 1;
        if i % 5 == 4 {
            assert(k - k / 5 == (k - 1) - (k - 1) / 5);
        } else {
            assert(k - k / 5 == (k - 1) - (k - 1) / 5 + 1);
            assert(symbol_value_spec(code[i - i / 5]) is Some);
            assert(code.take(k - 1 - (k - 1) / 5).push(code[i - i / 5]) =~= code.take(k - k / 5));
        }
    }
}

/// Displaying a friend code and parsing the display back gives the code
/// of the value it displays.
pub proof fn lemma_display_parse(b: Seq<u8>)
    ensures
        spec_parse(spec_display(b)) == Ok::<Seq<u8>, FriendCodeError>(
            from_value_spec(bytes_value(b)),
        ),
{
    let v = bytes_value(b);
    let syms = code_symbols(v);
    let code = chars_of(syms);
    lemma_body_symbols_bound(v);
    lemma_symbol_chars(syms);
    lemma_normalize_grouped_prefix(code, 19);
    assert(grouped(code).take(19) =~= grouped(code));
    assert(code.take(16) =~= code);
    assert(syms.take(15) =~= body_symbols(v));
    lemma_fold5_body(v);
    lemma_from_value_masked(v);
}

/// A friend code's display form parses back to the same code: the law
/// behind `value_roundtrips_through_string`.
pub proof fn law_display_roundtrip(v: u128)
    ensures
        spec_parse(spec_display(from_value_spec(v))) == Ok::<Seq<u8>, FriendCodeError>(
            from_value_spec(v),
        ),
{
    lemma_display_parse(from_value_spec(v));
    lemma_value_of_from_value(v);
    lemma_from_value_masked(v);
}

/// Every single-symbol substitution in a valid, canonical 16-symbol code
/// is refused with [`FriendCodeError::BadChecksum`].
pub proof fn law_detects_single_symbol_errors(s: Seq<char>, j: int, c: char)
    requires
        s.len() == 16,
        all_symbols(s),
        spec_parse(s) is Ok,
        0 <= j < 16,
        symbol_value_spec(c) is Some,
        c != s[j],
    ensures
        spec_parse(s.update(j, c)) == Err::<Seq<u8>, FriendCodeError>(FriendCodeError::BadChecksum),
{
    let t = s.update(j, c);
    assert(all_symbols(t));
    lemma_normalize_symbols(s);
    lemma_normalize_symbols(t);
    let vs = symbols_of(s);
    lemma_symbol_roundtrip(0, c);
    lemma_symbol_roundtrip(0, s[j]);
    assert(all_elements(vs)) by {
        assert forall|i: int| 0 <= i < 16 implies #[trigger] vs[i] < 32 by {
            lemma_symbol_roundtrip(0, s[i]);
        }
    }
    let w = symbol_value_spec(c).unwrap();
    assert(symbols_of(t) =~= vs.update(j, w));
    lemma_detects_substitution(vs, j, w);
}

/// Every adjacent transposition of two distinct symbols in a valid,
/// canonical 16-symbol code, the swap across the check symbol included,
/// is refused with [`FriendCodeError::BadChecksum`].
pub proof fn law_detects_adjacent_transpositions(s: Seq<char>, j: int)
    requires
        s.len() == 16,
        all_symbols(s),
        spec_parse(s) is Ok,
        0 <= j < 15,
        s[j] != s[j + 1],
    ensures
        spec_parse(s.update(j, s[j + 1]).update(j + 1, s[j])) == Err::<Seq<u8>, FriendCodeError>(
            FriendCodeError::BadChecksum,
        ),
{
    let t = s.update(j, s[j + 1]).update(j + 1, s[j]);
    assert(all_symbols(t));
    lemma_normalize_symbols(s);
    lemma_normalize_symbols(t);
    let vs = symbols_of(s);
    lemma_symbol_roundtrip(0, s[j]);
    lemma_symbol_roundtrip(0, s[j + 1]);
    assert(all_elements(vs)) by {
        assert forall|i: int| 0 <= i < 16 implies #[trigger] vs[i] < 32 by {
            lemma_symbol_roundtrip(0, s[i]);
        }
    }
    assert(symbols_of(t) =~= vs.update(j, vs[j + 1]).update(j + 1, vs[j]));
    lemma_detects_transposition(vs, j);
}

impl FriendCode {
    /// The display form, `XXXX-XXXX-XXXX-XXXX`: 15 symbols of the value,
    /// then the check symbol, in runs of four. Parses back to `self`.
    pub fn to_string(&self) -> (s: String)
        ensures
            s@ == spec_display(self@),
    {
        let value = self.value();
        let ghost body = body_symbols(value);
        proof {
            lemma_body_symbols_bound(value);
        }
        let mut raw: Vec<char> = Vec::new();
        let mut i: usize = 0;
        while i < 15
            invariant
                i <= 15,
                body == body_symbols(value),
                all_elements(body),
                raw@ == chars_of(body.take(i as int)),
            decreases 15 - i,
        {
            let sym = ((value >> (5 * (14 - i) as u128)) & 31u128) as u32;
            assert(sym == body[i as int]);
            raw.push(symbol_char(sym));
            i = i + 1;
            assert(raw@ =~= chars_of(body.take(i as int)));
        }
        assert(body.take(15) =~= body);
        proof {
            lemma_symbol_chars(body);
        }
        let check = verhoeff_check(raw.as_slice());
        raw.push(check);
        let ghost code = chars_of(code_symbols(value));
        assert(raw@ =~= code);
        let mut out: Vec<char> = Vec::new();
        let mut k: usize = 0;
        while k < 16
            invariant
                k <= 16,
                raw@ == code,
                code.len() == 16,
                out@.len() == (if k == 0 { 0 } else { k + (k - 1) / 4 }),
                forall|p: int|
                    0 <= p < out@.len() ==> #[trigger] out@[p] == (if p % 5 == 4 {
                        '-'
                    } else {
                        code[p - p / 5]
                    }),
            decreases 16 - k,
        {
            if k > 0 && k % 4 == 0 {
                out.push('-');
            }
            out.push(raw[k]);
            k = k + 1;
        }
        assert(out@ =~= grouped(code));
        string_from_chars(out)
    }
}

impl std::str::FromStr for FriendCode {
    type Err = FriendCodeError;

    fn from_str(s: &str) -> (r: Result<Self, FriendCodeError>)
        ensures
            r matches Ok(fc) ==> spec_parse(s@) == Ok::<Seq<u8>, FriendCodeError>(fc@),
            r matches Err(e) ==> spec_parse(s@) == Err::<Seq<u8>, FriendCodeError>(e),
    {
        FriendCode::parse(s)
    }
}

/// Byte strings of one length in lexicographic order, as arrays of bytes
/// compare: the first byte that differs decides.
pub open spec fn bytes_lt(a: Seq<u8>, b: Seq<u8>) -> bool
    decreases a.len(),
{
    if a.len() == 0 || b.len() == 0 {
        false
    } else {
        bytes_lt(a.drop_last(), b.drop_last()) || (a.drop_last() == b.drop_last() && a.last() < b.last())
    }
}

/// The big-endian value of a byte string, as an integer.
pub open spec fn digits_value(b: Seq<u8>) -> int
    decreases b.len(),
{
    if b.len() == 0 {
        0
    } else {
        digits_value(b.drop_last()) * 256 + b.last()
    }
}

/// `256^n`.
pub open spec fn radix_pow(n: nat) -> int
    decreases n,
{
    if n == 0 {
        1
    } else {
        256 * radix_pow((n - 1) as nat)
    }
}

proof fn lemma_digits_bound(b: Seq<u8>)
    ensures
        0 <= digits_value(b) < radix_pow(b.len()),
    decreases b.len(),
{
    if b.len() > 0 {
        lemma_digits_bound(b.drop_last());
    }
}

proof fn lemma_radix_pow_grows(m: nat, n: nat)
    requires
        m <= n,
    ensures
        1 <= radix_pow(m) <= radix_pow(n),
    decreases n,
{
    if m < n {
        lemma_radix_pow_grows(m, (n - 1) as nat);
    } else if n > 0 {
        lemma_radix_pow_grows((n - 1) as nat, (n - 1) as nat);
    }
}

/// For up to ten bytes, the machine value is the integer value.
proof fn lemma_bytes_value_is_digits(b: Seq<u8>)
    requires
        b.len() <= 10,
    ensures
        bytes_value(b) as int == digits_value(b),
    decreases b.len(),
{
    if b.len() > 0 {
        let d = b.drop_last();
        lemma_bytes_value_is_digits(d);
        lemma_digits_bound(d);
        lemma_radix_pow_grows(d.len(), 9);
        assert(radix_pow(9) == 0x1_0000_0000_0000_0000_00int) by {
            reveal_with_fuel(radix_pow, 10);
        }
        let x = bytes_value(d);
        let y = b.last();
        assert(x < 0x1_0000_0000_0000_0000_00u128);
        assert(x < 0x1_0000_0000_0000_0000_00u128 ==> ((x << 8u128) | (y as u128)) == x * 256 + y) by (bit_vector);
    }
}

/// Comparing byte strings of one length byte by byte is comparing their
/// values: equal exactly when the values are, and before exactly when
/// the value is smaller.
proof fn lemma_digits_order(a: Seq<u8>, b: Seq<u8>)
    requires
        a.len() == b.len(),
    ensures
        (a == b) <==> (digits_value(a) == digits_value(b)),
        bytes_lt(a, b) <==> digits_value(a) < digits_value(b),
    decreases a.len(),
{
    if a.len() > 0 {
        let (da, db) = (a.drop_last(), b.drop_last());
        lemma_digits_order(da, db);
        if a == b {
            assert(da == db);
        } else if da == db {
            assert(a.last() != b.last()) by {
                if a.last() == b.last() {
                    assert forall|i: int| 0 <= i < a.len() implies a[i] == b[i] by {
                        if i < a.len() - 1 {
                            assert(a[i] == da[i] && b[i] == db[i]);
                        }
                    }
                    assert(a =~= b);
                }
            }
        }
    } else {
        assert(a =~= b);
    }
}

/// A friend code's bytes are its value, big-endian: two codes have the
/// same bytes exactly when they have the same value, and in byte order
/// (the order of the codes' byte arrays) one comes before another exactly
/// when its value is smaller.
pub proof fn law_bytes_are_big_endian(a: FriendCode, b: FriendCode)
    ensures
        (a@ == b@) <==> (bytes_value(a@) == bytes_value(b@)),
        bytes_lt(a@, b@) <==> bytes_value(a@) < bytes_value(b@),
{
    assert(a@.len() == 10 && b@.len() == 10);
    lemma_bytes_value_is_digits(a@);
    lemma_bytes_value_is_digits(b@);
    lemma_digits_order(a@, b@);
}

/// The characters typed for `d` that read as `d`: `1` may be typed as
/// `I`, `i`, `L` or `l`, and `0` as `O` or `o`.
pub open spec fn alias_of(c: char, d: char) -> bool {
    ||| d == '1' && (c == 'I' || c == 'i' || c == 'L' || c == 'l')
    ||| d == '0' && (c == 'O' || c == 'o')
}

proof fn lemma_normalize_alias(s: Seq<char>, i: int, c: char)
    requires
        0 <= i < s.len(),
        alias_of(c, s[i]),
    ensures
        normalize(s.update(i, c)) == normalize(s),
    decreases s.len(),
{
    let t = s.update(i, c);
    if i == s.len() - 1 {
        assert(t.drop_last() =~= s.drop_last());
        assert(t.last() == c);
        assert(upper_spec('i') == 'I');
        assert(upper_spec('l') == 'L');
        assert(upper_spec('o') == 'O');
        assert(upper_spec('1') == '1');
        assert(upper_spec('0') == '0');
    } else {
        assert(t.drop_last() =~= s.drop_last().update(i, c));
        lemma_normalize_alias(s.drop_last(), i, c);
        assert(t.last() == s.last());
    }
}

/// Friend codes are read as they are read aloud: typing any `1` of a code
/// as `I`, `i`, `L` or `l`, or any `0` as `O` or `o`, parses to the same
/// result.
pub proof fn law_aliases_parse_alike(s: Seq<char>, i: int, c: char)
    requires
        0 <= i < s.len(),
        alias_of(c, s[i]),
    ensures
        spec_parse(s.update(i, c)) == spec_parse(s),
{
    lemma_normalize_alias(s, i, c);
}

proof fn lemma_normalize_separator(s: Seq<char>, i: int, c: char)
    requires
        0 <= i <= s.len(),
        c == '-' || c == ' ' || c == '_',
    ensures
        normalize(s.insert(i, c)) == normalize(s),
    decreases s.len(),
{
    let t = s.insert(i, c);
    if i == s.len() {
        assert(t.drop_last() =~= s);
        assert(t.last() == c);
        assert(upper_spec(c) == c);
    } else {
        assert(t.drop_last() =~= s.drop_last().insert(i, c));
        lemma_normalize_separator(s.drop_last(), i, c);
        assert(t.last() == s.last());
    }
}

proof fn lemma_normalize_lower(s: Seq<char>, i: int, c: char)
    requires
        0 <= i < s.len(),
        'a' <= c <= 'z',
        upper_spec(c) == s[i],
    ensures
        normalize(s.update(i, c)) == normalize(s),
    decreases s.len(),
{
    let t = s.update(i, c);
    if i == s.len() - 1 {
        assert(t.drop_last() =~= s.drop_last());
        assert('A' <= s[i] <= 'Z');
        assert(upper_spec(s[i]) == s[i]);
    } else {
        assert(t.drop_last() =~= s.drop_last().update(i, c));
        lemma_normalize_lower(s.drop_last(), i, c);
        assert(t.last() == s.last());
    }
}

/// Separators are only for reading: a `-`, space or `_` typed anywhere in
/// a code leaves what it parses to unchanged, and so does typing any
/// letter in lower case.
pub proof fn law_separators_and_case_do_not_matter(s: Seq<char>, i: int, c: char)
    ensures
        0 <= i <= s.len() && (c == '-' || c == ' ' || c == '_') ==> spec_parse(s.insert(i, c)) == spec_parse(s),
        0 <= i < s.len() && 'a' <= c <= 'z' && upper_spec(c) == s[i] ==> spec_parse(s.update(i, c)) == spec_parse(s),
{
    if 0 <= i <= s.len() && (c == '-' || c == ' ' || c == '_') {
        lemma_normalize_separator(s, i, c);
    }
    if 0 <= i < s.len() && 'a' <= c <= 'z' && upper_spec(c) == s[i] {
        lemma_normalize_lower(s, i, c);
    }
}

} // verus!
