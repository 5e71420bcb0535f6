//! The self-describing text form of an argon2 hash:
//! `$<variant>$v=<version>$m=<memory>,t=<time>,p=<lanes>$<salt>$<key>`,
//! where salt and key are written in standard base64 without padding.

use vstd::prelude::*;

verus! {

/// The argon2 variants.
#[derive(Clone, Copy, Debug, PartialEq, Eq, Structural)]
pub enum Algorithm {
    Argon2d,
    Argon2i,
    Argon2id,
}

/// The versions of the argon2 algorithm.
#[derive(Clone, Copy, Debug, PartialEq, Eq, Structural)]
pub enum AlgorithmVersion {
    Version10,
    Version13,
}

impl Algorithm {
    /// The number by which argon2 identifies the variant.
    pub fn code(&self) -> (r: u32)
        ensures
            r == self.spec_code(),
    {
        match self {
            Algorithm::Argon2d => 0,
            Algorithm::Argon2i => 1,
            Algorithm::Argon2id => 2,
        }
    }

    pub open spec fn spec_code(&self) -> u32 {
        match self {
            Algorithm::Argon2d => 0,
            Algorithm::Argon2i => 1,
            Algorithm::Argon2id => 2,
        }
    }
}

impl AlgorithmVersion {
    /// The number by which argon2 identifies the version.
    pub fn code(&self) -> (r: u32)
        ensures
            r == version_number(*self),
    {
        match self {
            AlgorithmVersion::Version10 => 0x10,
            AlgorithmVersion::Version13 => 0x13,
        }
    }
}

/// Name of a variant as it stands in an encoded hash.
pub open spec fn algorithm_name(a: Algorithm) -> Seq<char> {
    match a {
        Algorithm::Argon2d => seq!['a', 'r', 'g', 'o', 'n', '2', 'd'],
        Algorithm::Argon2i => seq!['a', 'r', 'g', 'o', 'n', '2', 'i'],
        Algorithm::Argon2id => seq!['a', 'r', 'g', 'o', 'n', '2', 'i', 'd'],
    }
}

/// Number of a version as it stands in an encoded hash.
pub open spec fn version_number(v: AlgorithmVersion) -> nat {
    match v {
        AlgorithmVersion::Version10 => 16,
        AlgorithmVersion::Version13 => 19,
    }
}

/// Decimal digit of `d`, for `d < 10`.
pub open spec fn digit_char(d: nat) -> char {
    ('0' as u8 + d) as char
}

/// `n` written in decimal, without leading zeros.
pub open spec fn decimal(n: nat) -> Seq<char>
    decreases n,
{
    if n < 10 {
        seq![digit_char(n)]
    } else {
        decimal(n / 10).push(digit_char(n % 10))
    }
}

/// Character of the standard base64 alphabet for a six-bit value.
pub open spec fn base64_char(v: nat) -> char {
    if v < 26 {
        ('A' as u8 + v) as char
    } else if v < 52 {
        ('a' as u8 + (v - 26)) as char
    } else if v < 62 {
        ('0' as u8 + (v - 52)) as char
    } else if v == 62 {
        '+'
    } else {
        '/'
    }
}

/// Standard base64 of `b`, without padding.
pub open spec fn base64(b: Seq<u8>) -> Seq<char>
    decreases b.len(),
{
    if b.len() == 0 {
        seq![]
    } else if b.len() == 1 {
        seq![base64_char(b[0] as nat / 4), base64_char((b[0] as nat % 4) * 16)]
    } else if b.len() == 2 {
        seq![
            base64_char(b[0] as nat / 4),
            base64_char((b[0] as nat % 4) * 16 + b[1] as nat / 16),
            base64_char((b[1] as nat % 16) * 4),
        ]
    } else {
        seq![
            base64_char(b[0] as nat / 4),
            base64_char((b[0] as nat % 4) * 16 + b[1] as nat / 16),
            base64_char((b[1] as nat % 16) * 4 + b[2] as nat / 64),
            base64_char(b[2] as nat % 64),
        ] + base64(b.subrange(3, b.len() as int))
    }
}

/// The full encoded hash of the derived key `key`, made with `salt` under the
/// given parameters: `$`, the variant's name, then the fields that follow it.
pub open spec fn encoded_hash(
    a: Algorithm,
    v: AlgorithmVersion,
    mem_cost: nat,
    time_cost: nat,
    lanes: nat,
    salt: Seq<u8>,
    key: Seq<u8>,
) -> Seq<char> {
    seq!['$'] + (algorithm_name(a) + fields_after_name(v, mem_cost, time_cost, lanes, salt, key))
}

/// The fields of an encoded hash after the variant's name:
/// `$v=<version>$m=<memory>,t=<time>,p=<lanes>$<salt>$<key>`.
pub open spec fn fields_after_name(
    v: AlgorithmVersion,
    m: nat,
    t: nat,
    l: nat,
    s: Seq<u8>,
    k: Seq<u8>,
) -> Seq<char> {
    let salt = base64(s) + (seq!['$'] + base64(k));
    let lanes = decimal(l) + (seq!['$'] + salt);
    let time = decimal(t) + (seq![',', 'p', '='] + lanes);
    let mem = decimal(m) + (seq![',', 't', '='] + time);
    let ver = decimal(version_number(v)) + (seq!['$', 'm', '='] + mem);
    seq!['$', 'v', '='] + ver
}

proof fn lemma_base64_char_injective(x: nat, y: nat)
    requires
        x < 64,
        y < 64,
        base64_char(x) == base64_char(y),
    ensures
        x == y,
{
}

proof fn lemma_group_injective(a0: u8, a1: u8, a2: u8, c0: u8, c1: u8, c2: u8)
    requires
        a0 as nat / 4 == c0 as nat / 4,
        (a0 as nat % 4) * 16 + a1 as nat / 16 == (c0 as nat % 4) * 16 + c1 as nat / 16,
        (a1 as nat % 16) * 4 + a2 as nat / 64 == (c1 as nat % 16) * 4 + c2 as nat / 64,
        a2 as nat % 64 == c2 as nat % 64,
    ensures
        a0 == c0 && a1 == c1 && a2 == c2,
{
    assert(a0 == c0 && a1 == c1 && a2 == c2) by (nonlinear_arith)
        requires
            a0 as nat / 4 == c0 as nat / 4,
            (a0 as nat % 4) * 16 + a1 as nat / 16 == (c0 as nat % 4) * 16 + c1 as nat / 16,
            (a1 as nat % 16) * 4 + a2 as nat / 64 == (c1 as nat % 16) * 4 + c2 as nat / 64,
            a2 as nat % 64 == c2 as nat % 64,
    ;
}

/// Base64 is one-to-one on byte sequences of one length.
pub proof fn lemma_base64_injective(b1: Seq<u8>, b2: Seq<u8>)
    requires
        b1.len() == b2.len(),
        base64(b1) == base64(b2),
    ensures
        b1 == b2,
    decreases b1.len(),
{
    let t = base64(b1);
    if b1.len() == 1 {
        lemma_base64_char_injective(b1[0] as nat / 4, b2[0] as nat / 4);
        assert(t[1] == base64(b2)[1]);
        lemma_base64_char_injective((b1[0] as nat % 4) * 16, (b2[0] as nat % 4) * 16);
        lemma_group_injective(b1[0], 0, 0, b2[0], 0, 0);
        assert(b1 =~= b2);
    } else if b1.len() == 2 {
        assert(t[1] == base64(b2)[1]);
        assert(t[2] == base64(b2)[2]);
        lemma_base64_char_injective(b1[0] as nat / 4, b2[0] as nat / 4);
        lemma_base64_char_injective(
            (b1[0] as nat % 4) * 16 + b1[1] as nat / 16,
            (b2[0] as nat % 4) * 16 + b2[1] as nat / 16,
        );
        lemma_base64_char_injective((b1[1] as nat % 16) * 4, (b2[1] as nat % 16) * 4);
        lemma_group_injective(b1[0], b1[1], 0, b2[0], b2[1], 0);
        assert(b1 =~= b2);
    } else if b1.len() >= 3 {
        let u = base64(b2);
        assert(t[0] == u[0]);
        assert(t[1] == u[1]);
        assert(t[2] == u[2]);
        assert(t[3] == u[3]);
        lemma_base64_char_injective(b1[0] as nat / 4, b2[0] as nat / 4);
        lemma_base64_char_injective(
            (b1[0] as nat % 4) * 16 + b1[1] as nat / 16,
            (b2[0] as nat % 4) * 16 + b2[1] as nat / 16,
        );
        lemma_base64_char_injective(
            (b1[1] as nat % 16) * 4 + b1[2] as nat / 64,
            (b2[1] as nat % 16) * 4 + b2[2] as nat / 64,
        );
        lemma_base64_char_injective(b1[2] as nat % 64, b2[2] as nat % 64);
        lemma_group_injective(b1[0], b1[1], b1[2], b2[0], b2[1], b2[2]);
        let r1 = b1.subrange(3, b1.len() as int);
        let r2 = b2.subrange(3, b2.len() as int);
        assert(base64(r1) =~= t.subrange(4, t.len() as int));
        assert(base64(r2) =~= u.subrange(4, u.len() as int));
        lemma_base64_injective(r1, r2);
        assert(b1 =~= b2) by {
            assert forall|i: int| 0 <= i < b1.len() implies b1[i] == b2[i] by {
                if i >= 3 {
                    assert(b1[i] == r1[i - 3]);
                }
            }
        }
    } else {
        assert(b1 =~= b2);
    }
}

/// Every character of `s` satisfies `p`.
pub open spec fn all_chars(s: Seq<char>, p: spec_fn(char) -> bool) -> bool {
    forall|i: int| 0 <= i < s.len() ==> #[trigger] p(s[i])
}

pub open spec fn is_digit(c: char) -> bool {
    '0' <= c <= '9'
}

pub open spec fn not_dollar(c: char) -> bool {
    c != '$'
}

proof fn lemma_drop_common_prefix(p: Seq<char>, x: Seq<char>, y: Seq<char>)
    requires
        p + x == p + y,
    ensures
        x == y,
{
    assert(x =~= (p + x).subrange(p.len() as int, (p + x).len() as int));
    assert(y =~= (p + y).subrange(p.len() as int, (p + y).len() as int));
}

/// A field whose characters satisfy `p`, followed by a character that does not,
/// is read back unambiguously.
proof fn lemma_split_field(
    a1: Seq<char>,
    r1: Seq<char>,
    a2: Seq<char>,
    r2: Seq<char>,
    p: spec_fn(char) -> bool,
)
    requires
        all_chars(a1, p),
        all_chars(a2, p),
        r1.len() > 0 && !p(r1[0]),
        r2.len() > 0 && !p(r2[0]),
        a1 + r1 == a2 + r2,
    ensures
        a1 == a2,
        r1 == r2,
{
    let e = a1 + r1;
    if a1.len() < a2.len() {
        assert(e[a1.len() as int] == r1[0]);
        assert((a2 + r2)[a1.len() as int] == a2[a1.len() as int]);
    } else if a2.len() < a1.len() {
        assert(e[a2.len() as int] == a1[a2.len() as int]);
        assert((a2 + r2)[a2.len() as int] == r2[0]);
    } else {
        assert(a1 =~= e.subrange(0, a1.len() as int));
        assert(a2 =~= (a2 + r2).subrange(0, a2.len() as int));
        assert(r1 =~= e.subrange(a1.len() as int, e.len() as int));
        assert(r2 =~= (a2 + r2).subrange(a2.len() as int, e.len() as int));
    }
}

proof fn lemma_decimal_digits(n: nat)
    ensures
        decimal(n).len() >= 1,
        n >= 10 ==> decimal(n).len() >= 2,
        all_chars(decimal(n), |c: char| is_digit(c)),
    decreases n,
{
    if n >= 10 {
        lemma_decimal_digits(n / 10);
    }
}

proof fn lemma_digit_char_injective(x: nat, y: nat)
    requires
        x < 10,
        y < 10,
        digit_char(x) == digit_char(y),
    ensures
        x == y,
{
    assert(digit_char(x) as u32 == '0' as u32 + x);
    assert(digit_char(y) as u32 == '0' as u32 + y);
}

proof fn lemma_decimal_injective(a: nat, b: nat)
    requires
        decimal(a) == decimal(b),
    ensures
        a == b,
    decreases a,
{
    lemma_decimal_digits(a);
    lemma_decimal_digits(b);
    let da = decimal(a);
    let db = decimal(b);
    if a < 10 && b < 10 {
        assert(da =~= seq![digit_char(a)]);
        assert(db =~= seq![digit_char(b)]);
        assert(da[0] == digit_char(a) && db[0] == digit_char(b));
        lemma_digit_char_injective(a, b);
    } else if a >= 10 && b >= 10 {
        assert(da.last() == digit_char(a % 10));
        assert(db.last() == digit_char(b % 10));
        assert(decimal(a / 10) =~= da.drop_last());
        assert(decimal(b / 10) =~= db.drop_last());
        lemma_decimal_injective(a / 10, b / 10);
        lemma_digit_char_injective(a % 10, b % 10);
        assert(a == 10 * (a / 10) + a % 10);
        assert(b == 10 * (b / 10) + b % 10);
    }
}

/// A decimal field after a common separator, followed by a non-digit, is read
/// back unambiguously.
proof fn lemma_read_decimal(sep: Seq<char>, n1: nat, r1: Seq<char>, n2: nat, r2: Seq<char>)
    requires
        sep + (decimal(n1) + r1) == sep + (decimal(n2) + r2),
        r1.len() > 0 && !is_digit(r1[0]),
        r2.len() > 0 && !is_digit(r2[0]),
    ensures
        n1 == n2,
        r1 == r2,
{
    let dg = |c: char| is_digit(c);
    lemma_drop_common_prefix(sep, decimal(n1) + r1, decimal(n2) + r2);
    lemma_decimal_digits(n1);
    lemma_decimal_digits(n2);
    lemma_split_field(decimal(n1), r1, decimal(n2), r2, dg);
    lemma_decimal_injective(n1, n2);
}

proof fn lemma_base64_no_dollar(b: Seq<u8>)
    ensures
        all_chars(base64(b), |c: char| not_dollar(c)),
    decreases b.len(),
{
    if b.len() >= 3 {
        lemma_base64_no_dollar(b.subrange(3, b.len() as int));
    }
}

/// An encoded hash determines the variant, version, memory cost, time cost,
/// lanes and salt it was made with, for salts of one length.
pub proof fn lemma_encoded_hash_determines(
    a1: Algorithm,
    v1: AlgorithmVersion,
    m1: nat,
    t1: nat,
    l1: nat,
    s1: Seq<u8>,
    k1: Seq<u8>,
    a2: Algorithm,
    v2: AlgorithmVersion,
    m2: nat,
    t2: nat,
    l2: nat,
    s2: Seq<u8>,
    k2: Seq<u8>,
)
    requires
        s1.len() == s2.len(),
        encoded_hash(a1, v1, m1, t1, l1, s1, k1) == encoded_hash(a2, v2, m2, t2, l2, s2, k2),
    ensures
        a1 == a2,
        v1 == v2,
        m1 == m2,
        t1 == t2,
        l1 == l2,
        s1 == s2,
{
    let nd = |c: char| not_dollar(c);
    let dollar = seq!['$'];
    let f1 = fields_after_name(v1, m1, t1, l1, s1, k1);
    let f2 = fields_after_name(v2, m2, t2, l2, s2, k2);
    lemma_drop_common_prefix(dollar, algorithm_name(a1) + f1, algorithm_name(a2) + f2);
    assert(all_chars(algorithm_name(a1), nd));
    assert(all_chars(algorithm_name(a2), nd));
    lemma_split_field(algorithm_name(a1), f1, algorithm_name(a2), f2, nd);
    assert(a1 == a2) by {
        let n1 = algorithm_name(a1);
        let n2 = algorithm_name(a2);
        assert(n1.len() == n2.len());
        assert(n1[6] == n2[6]);
    }
    let salt1 = base64(s1) + (dollar + base64(k1));
    let salt2 = base64(s2) + (dollar + base64(k2));
    let lanes1 = decimal(l1) + (dollar + salt1);
    let lanes2 = decimal(l2) + (dollar + salt2);
    let time1 = decimal(t1) + (seq![',', 'p', '='] + lanes1);
    let time2 = decimal(t2) + (seq![',', 'p', '='] + lanes2);
    let mem1 = decimal(m1) + (seq![',', 't', '='] + time1);
    let mem2 = decimal(m2) + (seq![',', 't', '='] + time2);
    assert((seq!['$', 'm', '='] + mem1)[0] == '$');
    assert((seq!['$', 'm', '='] + mem2)[0] == '$');
    lemma_read_decimal(
        seq!['$', 'v', '='],
        version_number(v1),
        seq!['$', 'm', '='] + mem1,
        version_number(v2),
        seq!['$', 'm', '='] + mem2,
    );
    assert((seq![',', 't', '='] + time1)[0] == ',');
    assert((seq![',', 't', '='] + time2)[0] == ',');
    lemma_read_decimal(seq!['$', 'm', '='], m1, seq![',', 't', '='] + time1, m2, seq![',', 't', '='] + time2);
    assert((seq![',', 'p', '='] + lanes1)[0] == ',');
    assert((seq![',', 'p', '='] + lanes2)[0] == ',');
    lemma_read_decimal(seq![',', 't', '='], t1, seq![',', 'p', '='] + lanes1, t2, seq![',', 'p', '='] + lanes2);
    assert((dollar + salt1)[0] == '$');
    assert((dollar + salt2)[0] == '$');
    lemma_read_decimal(seq![',', 'p', '='], l1, dollar + salt1, l2, dollar + salt2);
    lemma_drop_common_prefix(dollar, salt1, salt2);
    lemma_base64_no_dollar(s1);
    lemma_base64_no_dollar(s2);
    assert((dollar + base64(k1))[0] == '$');
    assert((dollar + base64(k2))[0] == '$');
    lemma_split_field(base64(s1), dollar + base64(k1), base64(s2), dollar + base64(k2), nd);
    lemma_base64_injective(s1, s2);
}

} // verus!
