//! Textual encoding of ledger records.
//!
//! A persisted record is a sequence of characters: eight colon-separated
//! header fields (timestamp, reward, block number, previous hash, content
//! hash, block hash, signature in hex, public key in hex) followed by the
//! payload, which may contain any character. Numbers are written in decimal,
//! byte strings in lowercase hex. Decoding is specified as a total spec
//! function, and encoding followed by decoding is proved to give back the
//! original fields.

use vstd::prelude::*;
use vstd::arithmetic::div_mod::lemma_fundamental_div_mod;

verus! {

// ---------------------------------------------------------------------------
// Characters
// ---------------------------------------------------------------------------

pub open spec fn digit_char(d: nat) -> char {
    if d == 0 {
        '0'
    } else if d == 1 {
        '1'
    } else if d == 2 {
        '2'
    } else if d == 3 {
        '3'
    } else if d == 4 {
        '4'
    } else if d == 5 {
        '5'
    } else if d == 6 {
        '6'
    } else if d == 7 {
        '7'
    } else if d == 8 {
        '8'
    } else {
        '9'
    }
}

pub open spec fn is_digit_char(c: char) -> bool {
    c == '0' || c == '1' || c == '2' || c == '3' || c == '4' || c == '5' || c == '6' || c == '7'
        || c == '8' || c == '9'
}

pub open spec fn digit_val(c: char) -> nat {
    if c == '0' {
        0
    } else if c == '1' {
        1
    } else if c == '2' {
        2
    } else if c == '3' {
        3
    } else if c == '4' {
        4
    } else if c == '5' {
        5
    } else if c == '6' {
        6
    } else if c == '7' {
        7
    } else if c == '8' {
        8
    } else {
        9
    }
}

pub open spec fn hex_char(d: nat) -> char {
    if d < 10 {
        digit_char(d)
    } else if d == 10 {
        'a'
    } else if d == 11 {
        'b'
    } else if d == 12 {
        'c'
    } else if d == 13 {
        'd'
    } else if d == 14 {
        'e'
    } else {
        'f'
    }
}

pub open spec fn is_hex_char(c: char) -> bool {
    is_digit_char(c) || c == 'a' || c == 'b' || c == 'c' || c == 'd' || c == 'e' || c == 'f'
}

pub open spec fn hex_val(c: char) -> nat {
    if is_digit_char(c) {
        digit_val(c)
    } else if c == 'a' {
        10
    } else if c == 'b' {
        11
    } else if c == 'c' {
        12
    } else if c == 'd' {
        13
    } else if c == 'e' {
        14
    } else {
        15
    }
}

pub open spec fn no_colon(s: Seq<char>) -> bool {
    forall|i: int| 0 <= i < s.len() ==> #[trigger] s[i] != ':'
}

// ---------------------------------------------------------------------------
// Decimal numbers
// ---------------------------------------------------------------------------

/// The decimal digits of `n`, most significant first.
pub open spec fn dec_nat(n: nat) -> Seq<char>
    decreases n,
{
    if n < 10 {
        seq![digit_char(n)]
    } else {
        dec_nat(n / 10).push(digit_char(n % 10))
    }
}

/// The decimal rendering of a signed number: a minus sign, then digits.
pub open spec fn dec_int(t: int) -> Seq<char> {
    if t >= 0 {
        dec_nat(t as nat)
    } else {
        seq!['-'] + dec_nat((-t) as nat)
    }
}

pub open spec fn all_digits(s: Seq<char>) -> bool {
    forall|i: int| 0 <= i < s.len() ==> is_digit_char(#[trigger] s[i])
}

/// The value of a digit string, read most significant first.
pub open spec fn dec_val(s: Seq<char>) -> nat
    decreases s.len(),
{
    if s.len() == 0 {
        0
    } else {
        dec_val(s.drop_last()) * 10 + digit_val(s.last())
    }
}

pub open spec fn parse_u64_seq(s: Seq<char>) -> Option<u64> {
    if s.len() > 0 && all_digits(s) && dec_val(s) <= u64::MAX {
        Some(dec_val(s) as u64)
    } else {
        None
    }
}

pub open spec fn parse_i64_seq(s: Seq<char>) -> Option<i64> {
    if s.len() >= 1 && s[0] == '-' {
        let rest = s.subrange(1, s.len() as int);
        if rest.len() > 0 && all_digits(rest) && dec_val(rest) <= 0x8000_0000_0000_0000u64 {
            Some((-(dec_val(rest) as int)) as i64)
        } else {
            None
        }
    } else {
        if s.len() > 0 && all_digits(s) && dec_val(s) <= 0x7fff_ffff_ffff_ffffu64 {
            Some(dec_val(s) as i64)
        } else {
            None
        }
    }
}

pub proof fn lemma_dec_nat_digits(n: nat)
    ensures
        dec_nat(n).len() >= 1,
        all_digits(dec_nat(n)),
    decreases n,
{
    if n < 10 {
    } else {
        lemma_dec_nat_digits(n / 10);
        assert forall|i: int| 0 <= i < dec_nat(n).len() implies is_digit_char(
            #[trigger] dec_nat(n)[i],
        ) by {
            if i < dec_nat(n / 10).len() {
                assert(dec_nat(n)[i] == dec_nat(n / 10)[i]);
            }
        }
    }
}

pub proof fn lemma_dec_val_of_dec_nat(n: nat)
    ensures
        dec_val(dec_nat(n)) == n,
    decreases n,
{
    if n < 10 {
        assert(dec_nat(n).drop_last() =~= Seq::<char>::empty());
        assert(dec_val(Seq::<char>::empty()) == 0);
        assert(digit_val(digit_char(n)) == n);
    } else {
        lemma_dec_val_of_dec_nat(n / 10);
        assert(dec_nat(n).drop_last() =~= dec_nat(n / 10));
        assert(digit_val(digit_char(n % 10)) == n % 10);
        lemma_fundamental_div_mod(n as int, 10);
    }
}

/// A digit string's value only grows as digits are appended.
pub proof fn lemma_dec_val_prefix(s: Seq<char>, i: int)
    requires
        0 <= i <= s.len(),
    ensures
        dec_val(s.take(i)) <= dec_val(s),
    decreases s.len() - i,
{
    if i == s.len() {
        assert(s.take(i) =~= s);
    } else {
        lemma_dec_val_prefix(s, i + 1);
        assert(s.take(i + 1).drop_last() =~= s.take(i));
        assert(dec_val(s.take(i + 1)) == dec_val(s.take(i)) * 10 + digit_val(s.take(i + 1).last()));
    }
}

// ---------------------------------------------------------------------------
// Hex byte strings
// ---------------------------------------------------------------------------

/// Two lowercase hex digits per byte.
pub open spec fn hex_of_bytes(b: Seq<u8>) -> Seq<char>
    decreases b.len(),
{
    if b.len() == 0 {
        Seq::empty()
    } else {
        hex_of_bytes(b.drop_last()).push(hex_char((b.last() / 16) as nat)).push(
            hex_char((b.last() % 16) as nat),
        )
    }
}

pub open spec fn all_hex(s: Seq<char>) -> bool {
    forall|i: int| 0 <= i < s.len() ==> is_hex_char(#[trigger] s[i])
}

pub open spec fn hex_seq(s: Seq<char>) -> bool {
    s.len() % 2 == 0 && all_hex(s)
}

pub open spec fn bytes_of_hex(s: Seq<char>) -> Seq<u8> {
    Seq::new(s.len() / 2, |i: int| (hex_val(s[2 * i]) * 16 + hex_val(s[2 * i + 1])) as u8)
}

pub open spec fn parse_hex_seq(s: Seq<char>) -> Option<Seq<u8>> {
    if hex_seq(s) {
        Some(bytes_of_hex(s))
    } else {
        None
    }
}

pub proof fn lemma_hex_of_bytes_len(b: Seq<u8>)
    ensures
        hex_of_bytes(b).len() == 2 * b.len(),
    decreases b.len(),
{
    if b.len() > 0 {
        lemma_hex_of_bytes_len(b.drop_last());
    }
}

pub proof fn lemma_hex_of_bytes_index(b: Seq<u8>, i: int)
    requires
        0 <= i < b.len(),
    ensures
        hex_of_bytes(b).len() == 2 * b.len(),
        hex_of_bytes(b)[2 * i] == hex_char((b[i] / 16) as nat),
        hex_of_bytes(b)[2 * i + 1] == hex_char((b[i] % 16) as nat),
    decreases b.len(),
{
    lemma_hex_of_bytes_len(b);
    if i == b.len() - 1 {
        lemma_hex_of_bytes_len(b.drop_last());
    } else {
        lemma_hex_of_bytes_index(b.drop_last(), i);
        assert(b.drop_last()[i] == b[i]);
    }
}

pub proof fn lemma_hex_all_hex(b: Seq<u8>)
    ensures
        hex_of_bytes(b).len() == 2 * b.len(),
        all_hex(hex_of_bytes(b)),
        no_colon(hex_of_bytes(b)),
{
    lemma_hex_of_bytes_len(b);
    assert forall|j: int| 0 <= j < hex_of_bytes(b).len() implies is_hex_char(
        #[trigger] hex_of_bytes(b)[j],
    ) by {
        let i = j / 2;
        vstd::arithmetic::div_mod::lemma_fundamental_div_mod(j, 2);
        if j % 2 == 0 {
            lemma_hex_of_bytes_index(b, i);
            assert(hex_of_bytes(b)[j] == hex_char((b[i] / 16) as nat));
        } else {
            lemma_hex_of_bytes_index(b, i);
            assert(hex_of_bytes(b)[j] == hex_char((b[i] % 16) as nat));
        }
    }
}

pub proof fn lemma_hex_roundtrip(b: Seq<u8>)
    ensures
        parse_hex_seq(hex_of_bytes(b)) == Some(b),
{
    lemma_hex_all_hex(b);
    let s = hex_of_bytes(b);
    assert(hex_seq(s));
    assert forall|i: int| 0 <= i < b.len() implies bytes_of_hex(s)[i] == b[i] by {
        lemma_hex_of_bytes_index(b, i);
        assert(hex_val(hex_char((b[i] / 16) as nat)) == b[i] / 16);
        assert(hex_val(hex_char((b[i] % 16) as nat)) == b[i] % 16);
        lemma_fundamental_div_mod(b[i] as int, 16);
    }
    assert(bytes_of_hex(s) =~= b);
}

// ---------------------------------------------------------------------------
// Colon-separated framing
// ---------------------------------------------------------------------------

/// The position of the first colon at or after `from`, or the length of `s`
/// if there is none.
pub open spec fn find_colon(s: Seq<char>, from: int) -> int
    decreases s.len() - from,
{
    if from < 0 {
        -1
    } else if from >= s.len() {
        s.len() as int
    } else if s[from] == ':' {
        from
    } else {
        find_colon(s, from + 1)
    }
}

pub proof fn lemma_find_colon_props(s: Seq<char>, from: int)
    requires
        0 <= from <= s.len(),
    ensures
        from <= find_colon(s, from) <= s.len(),
        find_colon(s, from) < s.len() ==> s[find_colon(s, from)] == ':',
        forall|j: int| from <= j < find_colon(s, from) ==> #[trigger] s[j] != ':',
    decreases s.len() - from,
{
    if from < s.len() && s[from] != ':' {
        lemma_find_colon_props(s, from + 1);
    }
}

/// Scanning from the start of a colon-free segment finds the colon that ends it.
pub proof fn lemma_find_colon_at(s: Seq<char>, from: int, a: Seq<char>)
    requires
        0 <= from,
        from + a.len() + 1 <= s.len(),
        no_colon(a),
        s.subrange(from, from + a.len() as int) == a,
        s[from + a.len()] == ':',
    ensures
        find_colon(s, from) == from + a.len(),
    decreases a.len(),
{
    if a.len() == 0 {
        assert(s[from] == ':');
    } else {
        assert(s[from] == s.subrange(from, from + a.len() as int)[0]);
        assert(s[from] == a[0]);
        assert(a[0] != ':');
        let a2 = a.subrange(1, a.len() as int);
        assert(no_colon(a2));
        assert(s.subrange(from + 1, from + 1 + a2.len() as int) =~= a2) by {
            assert forall|i: int| 0 <= i < a2.len() implies s.subrange(
                from + 1,
                from + 1 + a2.len() as int,
            )[i] == a2[i] by {
                assert(s[from + 1 + i] == s.subrange(from, from + a.len() as int)[1 + i]);
            }
        }
        lemma_find_colon_at(s, from + 1, a2);
    }
}

// ---------------------------------------------------------------------------
// Whole records
// ---------------------------------------------------------------------------

/// The fields of one ledger record, as mathematical values.
#[verifier::ext_equal]
pub ghost struct BlockModel {
    pub timestamp: i64,
    pub data: Seq<char>,
    pub previous_hash: Seq<char>,
    pub reward: u64,
    pub block_number: u64,
    pub content_hash: Seq<char>,
    pub signature: Seq<u8>,
    pub public_key: Seq<u8>,
    pub block_hash: Seq<char>,
}

pub open spec fn colon() -> Seq<char> {
    seq![':']
}

/// The persisted form of a record: eight colon-terminated header fields, then
/// the payload.
pub open spec fn enc_block(m: BlockModel) -> Seq<char> {
    dec_int(m.timestamp as int) + colon() + dec_nat(m.reward as nat) + colon() + dec_nat(
        m.block_number as nat,
    ) + colon() + m.previous_hash + colon() + m.content_hash + colon() + m.block_hash + colon()
        + hex_of_bytes(m.signature) + colon() + hex_of_bytes(m.public_key) + colon() + m.data
}

/// Decoding, as a total function: `None` on any malformed record.
pub open spec fn spec_dec_block(s: Seq<char>) -> Option<BlockModel> {
    let p1 = find_colon(s, 0);
    let p2 = find_colon(s, p1 + 1);
    let p3 = find_colon(s, p2 + 1);
    let p4 = find_colon(s, p3 + 1);
    let p5 = find_colon(s, p4 + 1);
    let p6 = find_colon(s, p5 + 1);
    let p7 = find_colon(s, p6 + 1);
    let p8 = find_colon(s, p7 + 1);
    if p8 >= s.len() {
        None
    } else {
        let ts = parse_i64_seq(s.subrange(0, p1));
        let reward = parse_u64_seq(s.subrange(p1 + 1, p2));
        let number = parse_u64_seq(s.subrange(p2 + 1, p3));
        let sig = parse_hex_seq(s.subrange(p6 + 1, p7));
        let pk = parse_hex_seq(s.subrange(p7 + 1, p8));
        if ts is Some && reward is Some && number is Some && sig is Some && pk is Some {
            Some(
                BlockModel {
                    timestamp: ts->Some_0,
                    data: s.subrange(p8 + 1, s.len() as int),
                    previous_hash: s.subrange(p3 + 1, p4),
                    reward: reward->Some_0,
                    block_number: number->Some_0,
                    content_hash: s.subrange(p4 + 1, p5),
                    signature: sig->Some_0,
                    public_key: pk->Some_0,
                    block_hash: s.subrange(p5 + 1, p6),
                },
            )
        } else {
            None
        }
    }
}

pub proof fn lemma_dec_int_props(t: int)
    requires
        -0x8000_0000_0000_0000 <= t <= 0x7fff_ffff_ffff_ffff,
    ensures
        dec_int(t).len() >= 1,
        no_colon(dec_int(t)),
        parse_i64_seq(dec_int(t)) == Some(t as i64),
{
    if t >= 0 {
        lemma_dec_nat_digits(t as nat);
        lemma_dec_val_of_dec_nat(t as nat);
        assert(!is_digit_char(':'));
        assert(dec_int(t)[0] != '-');
    } else {
        let m = (-t) as nat;
        lemma_dec_nat_digits(m);
        lemma_dec_val_of_dec_nat(m);
        let s = dec_int(t);
        assert(s[0] == '-');
        assert(s.subrange(1, s.len() as int) =~= dec_nat(m));
        assert forall|i: int| 0 <= i < s.len() implies #[trigger] s[i] != ':' by {
            if i >= 1 {
                assert(s[i] == dec_nat(m)[i - 1]);
            }
        }
    }
}

pub proof fn lemma_dec_nat_parse(n: u64)
    ensures
        dec_nat(n as nat).len() >= 1,
        no_colon(dec_nat(n as nat)),
        parse_u64_seq(dec_nat(n as nat)) == Some(n),
{
    lemma_dec_nat_digits(n as nat);
    lemma_dec_val_of_dec_nat(n as nat);
    assert(!is_digit_char(':'));
}

/// Encoding a record and decoding it gives back exactly the same fields,
/// provided the three hash fields contain no separator.
#[verifier::rlimit(100)]
pub proof fn lemma_dec_enc_block(m: BlockModel)
    requires
        no_colon(m.previous_hash),
        no_colon(m.content_hash),
        no_colon(m.block_hash),
    ensures
        spec_dec_block(enc_block(m)) == Some(m),
{
    let a1 = dec_int(m.timestamp as int);
    let a2 = dec_nat(m.reward as nat);
    let a3 = dec_nat(m.block_number as nat);
    let a4 = m.previous_hash;
    let a5 = m.content_hash;
    let a6 = m.block_hash;
    let a7 = hex_of_bytes(m.signature);
    let a8 = hex_of_bytes(m.public_key);
    lemma_dec_int_props(m.timestamp as int);
    lemma_dec_nat_parse(m.reward);
    lemma_dec_nat_parse(m.block_number);
    lemma_hex_all_hex(m.signature);
    lemma_hex_all_hex(m.public_key);
    lemma_hex_roundtrip(m.signature);
    lemma_hex_roundtrip(m.public_key);
    let s = enc_block(m);
    let q1 = a1.len() as int;
    let q2 = q1 + 1 + a2.len();
    let q3 = q2 + 1 + a3.len();
    let q4 = q3 + 1 + a4.len();
    let q5 = q4 + 1 + a5.len();
    let q6 = q5 + 1 + a6.len();
    let q7 = q6 + 1 + a7.len();
    let q8 = q7 + 1 + a8.len();
    assert(s.len() == q8 + 1 + m.data.len());
    assert(s.subrange(0, q1) =~= a1);
    assert(s[q1] == ':');
    assert(s.subrange(q1 + 1, q2) =~= a2);
    assert(s[q2] == ':');
    assert(s.subrange(q2 + 1, q3) =~= a3);
    assert(s[q3] == ':');
    assert(s.subrange(q3 + 1, q4) =~= a4);
    assert(s[q4] == ':');
    assert(s.subrange(q4 + 1, q5) =~= a5);
    assert(s[q5] == ':');
    assert(s.subrange(q5 + 1, q6) =~= a6);
    assert(s[q6] == ':');
    assert(s.subrange(q6 + 1, q7) =~= a7);
    assert(s[q7] == ':');
    assert(s.subrange(q7 + 1, q8) =~= a8);
    assert(s[q8] == ':');
    assert(s.subrange(q8 + 1, s.len() as int) =~= m.data);
    lemma_find_colon_at(s, 0, a1);
    lemma_find_colon_at(s, q1 + 1, a2);
    lemma_find_colon_at(s, q2 + 1, a3);
    lemma_find_colon_at(s, q3 + 1, a4);
    lemma_find_colon_at(s, q4 + 1, a5);
    lemma_find_colon_at(s, q5 + 1, a6);
    lemma_find_colon_at(s, q6 + 1, a7);
    lemma_find_colon_at(s, q7 + 1, a8);
    assert(find_colon(s, 0) == q1);
    assert(find_colon(s, q1 + 1) == q2);
    assert(find_colon(s, q2 + 1) == q3);
    assert(find_colon(s, q3 + 1) == q4);
    assert(find_colon(s, q4 + 1) == q5);
    assert(find_colon(s, q5 + 1) == q6);
    assert(find_colon(s, q6 + 1) == q7);
    assert(find_colon(s, q7 + 1) == q8);
    let r = spec_dec_block(s);
    assert(r is Some);
    assert(r->Some_0 =~= m);
}

// ---------------------------------------------------------------------------
// Executable encoding and parsing
// ---------------------------------------------------------------------------

pub(crate) fn extend_from(dst: &mut Vec<char>, src: &Vec<char>)
    ensures
        final(dst)@ == old(dst)@ + src@,
{
    let n = src.len();
    let mut i: usize = 0;
    while i < n
        invariant
            i <= n,
            n == src@.len(),
            dst@ == old(dst)@ + src@.take(i as int),
        decreases n - i,
    {
        dst.push(src[i]);
        assert(old(dst)@ + src@.take(i + 1) =~= (old(dst)@ + src@.take(i as int)).push(
            src@[i as int],
        ));
        i += 1;
    }
    assert(src@.take(n as int) =~= src@);
}

pub(crate) fn chars_eq(a: &Vec<char>, b: &Vec<char>) -> (r: bool)
    ensures
        r == (a@ == b@),
{
    if a.len() != b.len() {
        return false;
    }
    let n = a.len();
    let mut i: usize = 0;
    while i < n
        invariant
            i <= n,
            n == a@.len() == b@.len(),
            forall|j: int| 0 <= j < i ==> a@[j] == b@[j],
        decreases n - i,
    {
        if a[i] != b[i] {
            return false;
        }
        i += 1;
    }
    proof {
        assert(a@ =~= b@);
    }
    true
}

pub(crate) fn subvec(s: &Vec<char>, from: usize, to: usize) -> (r: Vec<char>)
    requires
        from <= to <= s@.len(),
    ensures
        r@ == s@.subrange(from as int, to as int),
{
    let mut r: Vec<char> = Vec::new();
    let mut i: usize = from;
    while i < to
        invariant
            from <= i <= to <= s@.len(),
            r@ == s@.subrange(from as int, i as int),
        decreases to - i,
    {
        r.push(s[i]);
        assert(s@.subrange(from as int, i + 1) =~= s@.subrange(from as int, i as int).push(
            s@[i as int],
        ));
        i += 1;
    }
    r
}

/// A copy of a string's characters, made with verified indexing.
pub fn string_to_chars(s: &str) -> (r: Vec<char>)
    ensures
        r@ == s@,
{
    let n = s.unicode_len();
    let mut r: Vec<char> = Vec::new();
    let mut i: usize = 0;
    while i < n
        invariant
            i <= n,
            n == s@.len(),
            r@ == s@.take(i as int),
        decreases n - i,
    {
        r.push(s.get_char(i));
        assert(s@.take(i + 1) =~= s@.take(i as int).push(s@[i as int]));
        i += 1;
    }
    assert(s@.take(n as int) =~= s@);
    r
}

fn digit_char_of(d: u64) -> (c: char)
    requires
        d < 10,
    ensures
        c == digit_char(d as nat),
{
    if d == 0 {
        '0'
    } else if d == 1 {
        '1'
    } else if d == 2 {
        '2'
    } else if d == 3 {
        '3'
    } else if d == 4 {
        '4'
    } else if d == 5 {
        '5'
    } else if d == 6 {
        '6'
    } else if d == 7 {
        '7'
    } else if d == 8 {
        '8'
    } else {
        '9'
    }
}

fn hex_char_of(d: u8) -> (c: char)
    requires
        d < 16,
    ensures
        c == hex_char(d as nat),
{
    if d < 10 {
        digit_char_of(d as u64)
    } else if d == 10 {
        'a'
    } else if d == 11 {
        'b'
    } else if d == 12 {
        'c'
    } else if d == 13 {
        'd'
    } else if d == 14 {
        'e'
    } else {
        'f'
    }
}

fn digit_of_char(c: char) -> (r: Option<u64>)
    ensures
        match r {
            Some(d) => is_digit_char(c) && d == digit_val(c) && d < 10,
            None => !is_digit_char(c),
        },
{
    if c == '0' {
        Some(0)
    } else if c == '1' {
        Some(1)
    } else if c == '2' {
        Some(2)
    } else if c == '3' {
        Some(3)
    } else if c == '4' {
        Some(4)
    } else if c == '5' {
        Some(5)
    } else if c == '6' {
        Some(6)
    } else if c == '7' {
        Some(7)
    } else if c == '8' {
        Some(8)
    } else if c == '9' {
        Some(9)
    } else {
        None
    }
}

fn hex_of_char(c: char) -> (r: Option<u64>)
    ensures
        match r {
            Some(d) => is_hex_char(c) && d == hex_val(c) && d < 16,
            None => !is_hex_char(c),
        },
{
    match digit_of_char(c) {
        Some(d) => Some(d),
        None => {
            if c == 'a' {
                Some(10)
            } else if c == 'b' {
                Some(11)
            } else if c == 'c' {
                Some(12)
            } else if c == 'd' {
                Some(13)
            } else if c == 'e' {
                Some(14)
            } else if c == 'f' {
                Some(15)
            } else {
                None
            }
        },
    }
}

/// The decimal digits of `n`, most significant first.
pub fn u64_to_dec(n: u64) -> (v: Vec<char>)
    ensures
        v@ == dec_nat(n as nat),
    decreases n,
{
    if n < 10 {
        let mut v: Vec<char> = Vec::new();
        v.push(digit_char_of(n));
        assert(v@ =~= dec_nat(n as nat));
        v
    } else {
        let mut v = u64_to_dec(n / 10);
        v.push(digit_char_of(n % 10));
        assert(v@ =~= dec_nat(n as nat));
        v
    }
}

/// The decimal rendering of a signed number.
pub fn i64_to_dec(t: i64) -> (v: Vec<char>)
    ensures
        v@ == dec_int(t as int),
{
    if t >= 0 {
        u64_to_dec(t as u64)
    } else {
        let m: u64 = ((-(t + 1)) as u64) + 1;
        assert(m as int == -(t as int));
        let mut v: Vec<char> = Vec::new();
        v.push('-');
        let digits = u64_to_dec(m);
        extend_from(&mut v, &digits);
        assert(v@ =~= seq!['-'] + dec_nat(m as nat));
        v
    }
}

pub fn parse_u64_chars(s: &Vec<char>) -> (r: Option<u64>)
    ensures
        r == parse_u64_seq(s@),
{
    let n = s.len();
    if n == 0 {
        return None;
    }
    let mut acc: u64 = 0;
    let mut i: usize = 0;
    while i < n
        invariant
            i <= n,
            n == s@.len(),
            all_digits(s@.take(i as int)),
            acc as nat == dec_val(s@.take(i as int)),
        decreases n - i,
    {
        let d = match digit_of_char(s[i]) {
            Some(d) => d,
            None => {
                assert(!all_digits(s@));
                return None;
            },
        };
        proof {
            assert(s@.take(i + 1).drop_last() =~= s@.take(i as int));
            assert(s@.take(i + 1).last() == s@[i as int]);
        }
        let next = match acc.checked_mul(10) {
            Some(x) => match x.checked_add(d) {
                Some(y) => y,
                None => {
                    proof {
                        assert(dec_val(s@.take(i + 1)) > u64::MAX);
                        lemma_dec_val_prefix(s@, i + 1);
                    }
                    return None;
                },
            },
            None => {
                proof {
                    assert(dec_val(s@.take(i + 1)) > u64::MAX);
                    lemma_dec_val_prefix(s@, i + 1);
                }
                return None;
            },
        };
        acc = next;
        i += 1;
    }
    proof {
        assert(s@.take(n as int) =~= s@);
    }
    Some(acc)
}

pub fn parse_i64_chars(s: &Vec<char>) -> (r: Option<i64>)
    ensures
        r == parse_i64_seq(s@),
{
    let n = s.len();
    if n >= 1 && s[0] == '-' {
        let rest = subvec(s, 1, n);
        match parse_u64_chars(&rest) {
            Some(v) => {
                if v <= 0x8000_0000_0000_0000u64 {
                    let t: i64 = if v == 0x8000_0000_0000_0000u64 {
                        i64::MIN
                    } else {
                        -(v as i64)
                    };
                    Some(t)
                } else {
                    None
                }
            },
            None => None,
        }
    } else {
        match parse_u64_chars(s) {
            Some(v) => {
                if v <= 0x7fff_ffff_ffff_ffffu64 {
                    Some(v as i64)
                } else {
                    None
                }
            },
            None => None,
        }
    }
}

/// Two lowercase hex digits for each byte.
pub fn bytes_to_hex(b: &Vec<u8>) -> (v: Vec<char>)
    ensures
        v@ == hex_of_bytes(b@),
{
    let n = b.len();
    let mut v: Vec<char> = Vec::new();
    let mut i: usize = 0;
    while i < n
        invariant
            i <= n,
            n == b@.len(),
            v@ == hex_of_bytes(b@.take(i as int)),
        decreases n - i,
    {
        let x = b[i];
        v.push(hex_char_of(x / 16));
        v.push(hex_char_of(x % 16));
        proof {
            assert(b@.take(i + 1).drop_last() =~= b@.take(i as int));
            assert(b@.take(i + 1).last() == b@[i as int]);
        }
        i += 1;
    }
    proof {
        assert(b@.take(n as int) =~= b@);
    }
    v
}

pub fn hex_to_bytes(s: &Vec<char>) -> (r: Option<Vec<u8>>)
    ensures
        match r {
            Some(v) => parse_hex_seq(s@) == Some(v@),
            None => parse_hex_seq(s@) is None,
        },
{
    let n = s.len();
    if n % 2 != 0 {
        return None;
    }
    let mut v: Vec<u8> = Vec::new();
    let mut i: usize = 0;
    while i < n / 2
        invariant
            i <= n / 2,
            n == s@.len(),
            n % 2 == 0,
            v@.len() == i,
            forall|j: int| 0 <= j < 2 * i ==> is_hex_char(#[trigger] s@[j]),
            forall|j: int|
                0 <= j < i ==> v@[j] == (hex_val(s@[2 * j]) * 16 + hex_val(s@[2 * j + 1])) as u8,
        decreases n / 2 - i,
    {
        let hi = match hex_of_char(s[2 * i]) {
            Some(d) => d,
            None => {
                assert(!all_hex(s@));
                return None;
            },
        };
        let lo = match hex_of_char(s[2 * i + 1]) {
            Some(d) => d,
            None => {
                assert(!all_hex(s@));
                return None;
            },
        };
        v.push((hi * 16 + lo) as u8);
        i += 1;
    }
    proof {
        assert(all_hex(s@)) by {
            assert forall|j: int| 0 <= j < s@.len() implies is_hex_char(#[trigger] s@[j]) by {
                assert(j < 2 * ((n as int) / 2));
            }
        }
        assert(v@ =~= bytes_of_hex(s@));
    }
    Some(v)
}

pub(crate) fn find_colon_from(s: &Vec<char>, from: usize) -> (r: usize)
    requires
        from <= s@.len(),
    ensures
        r == find_colon(s@, from as int),
        from <= r <= s@.len(),
{
    let n = s.len();
    let mut i: usize = from;
    while i < n
        invariant
            from <= i <= n,
            n == s@.len(),
            find_colon(s@, from as int) == find_colon(s@, i as int),
        decreases n - i,
    {
        if s[i] == ':' {
            return i;
        }
        i += 1;
    }
    n
}

} // verus!
