//! Conversion between CIDR prefix lengths and dotted-decimal subnet masks.

use vstd::prelude::*;

verus! {

/// The 32-bit mask with the top `prefix` bits set; 32 or more means all
/// bits.
pub open spec fn mask_bits(prefix: u8) -> u32 {
    if prefix >= 32 {
        0xFFFF_FFFF
    } else if prefix == 0 {
        0
    } else {
        0xFFFF_FFFFu32 << ((32 - prefix) as u32)
    }
}

/// Octet `i` (0 is the most significant) of `m`.
pub open spec fn octet(m: u32, i: int) -> u32 {
    if i == 0 {
        (m >> 24u32) & 0xFF
    } else if i == 1 {
        (m >> 16u32) & 0xFF
    } else if i == 2 {
        (m >> 8u32) & 0xFF
    } else {
        m & 0xFF
    }
}

/// The ASCII decimal digit for `d` in `0..=9`.
pub open spec fn digit_char(d: nat) -> char {
    ((d + 48) as u8) as char
}

pub open spec fn is_digit(c: char) -> bool {
    '0' <= c && c <= '9'
}

/// Decimal rendering of `n`, without leading zeros.
pub open spec fn decimal(n: nat) -> Seq<char>
    decreases n,
{
    if n < 10 {
        seq![digit_char(n)]
    } else {
        decimal(n / 10).push(digit_char(n % 10))
    }
}

/// The dotted-decimal rendering of `m`, most significant octet first.
pub open spec fn dotted_quad(m: u32) -> Seq<char> {
    decimal(octet(m, 0) as nat) + seq!['.'] + decimal(octet(m, 1) as nat) + seq!['.']
        + decimal(octet(m, 2) as nat) + seq!['.'] + decimal(octet(m, 3) as nat)
}

/// The dotted-decimal subnet mask for a prefix length.
pub open spec fn subnet_of(prefix: u8) -> Seq<char> {
    dotted_quad(mask_bits(prefix))
}

/// Relies on the `Display` impl of `u32` (through `ToString`): decimal digits
/// without sign or leading zeros.
#[verifier::external_body]
fn decimal_string(n: u32) -> (r: String)
    ensures
        r@ == decimal(n as nat),
{
    n.to_string()
}

/// Converts a CIDR prefix length to a dotted-decimal subnet mask; a prefix
/// above 32 counts as 32.
pub fn prefix_to_subnet(prefix: u8) -> (r: String)
    ensures
        r@ == subnet_of(prefix),
{
    let mask: u32 = if prefix >= 32 {
        0xFFFF_FFFF
    } else if prefix == 0 {
        0
    } else {
        0xFFFF_FFFFu32 << (32 - prefix) as u32
    };
    let dot = ".";
    proof {
        reveal_strlit(".");
    }
    let s = decimal_string((mask >> 24u32) & 0xFF);
    let s = s.concat(dot);
    let s = s.concat(decimal_string((mask >> 16u32) & 0xFF).as_str());
    let s = s.concat(dot);
    let s = s.concat(decimal_string((mask >> 8u32) & 0xFF).as_str());
    let s = s.concat(dot);
    let s = s.concat(decimal_string(mask & 0xFF).as_str());
    s
}

/// The pieces of `s` between occurrences of `sep`, as `str::split` yields
/// them: `n` separators give `n + 1` pieces, empty ones included.
pub open spec fn split_on(s: Seq<char>, sep: char) -> Seq<Seq<char>>
    decreases s.len(),
{
    if s.len() == 0 {
        seq![Seq::empty()]
    } else {
        let init = split_on(s.drop_last(), sep);
        if s.last() == sep {
            init.push(Seq::empty())
        } else {
            init.update(init.len() - 1, init.last().push(s.last()))
        }
    }
}

/// Value of a string of decimal digits.
pub open spec fn digits_value(s: Seq<char>) -> nat
    decreases s.len(),
{
    if s.len() == 0 {
        0
    } else {
        digits_value(s.drop_last()) * 10 + (s.last() as nat - '0' as nat) as nat
    }
}

/// What `str::parse::<u8>` accepts: an optional `+` followed by one or more
/// ASCII digits whose value fits in a `u8`.
pub open spec fn parse_u8_spec(s: Seq<char>) -> Option<u8> {
    let digits = if s.len() > 0 && s[0] == '+' {
        s.drop_first()
    } else {
        s
    };
    if digits.len() > 0 && (forall|i: int| 0 <= i < digits.len() ==> is_digit(#[trigger] digits[i]))
        && digits_value(digits) <= 255 {
        Some(digits_value(digits) as u8)
    } else {
        None
    }
}

/// Number of set bits among the low eight bits of `x`.
pub open spec fn octet_ones(x: u32) -> int {
    (x & 1) + ((x >> 1u32) & 1) + ((x >> 2u32) & 1) + ((x >> 3u32) & 1) + ((x >> 4u32) & 1) + ((x
        >> 5u32) & 1) + ((x >> 6u32) & 1) + ((x >> 7u32) & 1)
}

/// Set bits contributed by one dotted part: those of its `u8` value, or none
/// when it does not parse.
pub open spec fn part_ones(part: Seq<char>) -> nat {
    match parse_u8_spec(part) {
        Some(n) => octet_ones(n as u32) as nat,
        None => 0,
    }
}

/// The prefix length read back from a dotted mask: the set bits of its four
/// parts, or 24 when it does not have exactly four parts. Contiguity of the
/// bits is not checked.
pub open spec fn prefix_of(subnet: Seq<char>) -> u8 {
    let parts = split_on(subnet, '.');
    if parts.len() != 4 {
        24
    } else {
        (part_ones(parts[0]) + part_ones(parts[1]) + part_ones(parts[2]) + part_ones(parts[3])) as u8
    }
}

/// Relies on `str::parse::<u8>` (`u8::from_str`): accepts an optional `+`
/// and then decimal digits only, with a value that fits in a `u8`.
#[verifier::external_body]
fn parse_u8(s: &str) -> (r: Option<u8>)
    ensures
        r == parse_u8_spec(s@),
{
    s.parse::<u8>().ok()
}

/// Splits `s` at every `.`.
fn split_dots(s: &str) -> (r: Vec<&str>)
    ensures
        r@.len() == split_on(s@, '.').len(),
        forall|i: int| 0 <= i < r@.len() ==> #[trigger] r@[i]@ == split_on(s@, '.')[i],
{
    let n = s.unicode_len();
    let mut parts: Vec<&str> = Vec::new();
    let mut start: usize = 0;
    let mut i: usize = 0;
    while i < n
        invariant
            n == s@.len(),
            start <= i <= n,
            parts@.len() + 1 == split_on(s@.subrange(0, i as int), '.').len(),
            forall|j: int|
                0 <= j < parts@.len() ==> #[trigger] parts@[j]@ == split_on(
                    s@.subrange(0, i as int),
                    '.',
                )[j],
            split_on(s@.subrange(0, i as int), '.').last() == s@.subrange(start as int, i as int),
        decreases n - i,
    {
        let c = s.get_char(i);
        assert(s@.subrange(0, i + 1).drop_last() =~= s@.subrange(0, i as int));
        if c == '.' {
            parts.push(s.substring_char(start, i));
            start = i + 1;
        } else {
            assert(s@.subrange(start as int, i + 1) =~= s@.subrange(start as int, i as int).push(c));
        }
        i = i + 1;
    }
    parts.push(s.substring_char(start, n));
    assert(s@.subrange(0, n as int) =~= s@);
    parts
}

/// Number of set bits of `n`.
fn count_ones(n: u8) -> (r: u8)
    ensures
        r == octet_ones(n as u32),
        r <= 8,
{
    let x = n as u32;
    assert(x & 1 <= 1 && (x >> 1u32) & 1 <= 1 && (x >> 2u32) & 1 <= 1 && (x >> 3u32) & 1 <= 1 && (
    x >> 4u32) & 1 <= 1 && (x >> 5u32) & 1 <= 1 && (x >> 6u32) & 1 <= 1 && (x >> 7u32) & 1 <= 1)
        by (bit_vector);
    let total = (x & 1) + ((x >> 1u32) & 1) + ((x >> 2u32) & 1) + ((x >> 3u32) & 1) + ((x >> 4u32)
        & 1) + ((x >> 5u32) & 1) + ((x >> 6u32) & 1) + ((x >> 7u32) & 1);
    total as u8
}

/// Set bits contributed by one dotted part.
fn ones_in_part(part: &str) -> (r: u8)
    ensures
        r as nat == part_ones(part@),
        r <= 8,
{
    match parse_u8(part) {
        Some(n) => count_ones(n),
        None => 0,
    }
}

/// Reads a prefix length back from a dotted-decimal subnet mask by counting
/// the set bits of its four parts. A mask without exactly four parts gives
/// 24; parts that are not `u8` numbers count as zero bits.
pub fn subnet_to_prefix(subnet: &str) -> (r: u8)
    ensures
        r == prefix_of(subnet@),
{
    let parts = split_dots(subnet);
    if parts.len() != 4 {
        return 24;
    }
    let a = ones_in_part(parts[0]);
    let b = ones_in_part(parts[1]);
    let c = ones_in_part(parts[2]);
    let d = ones_in_part(parts[3]);
    a + b + c + d
}

proof fn lemma_mask_octets(prefix: u8)
    by (bit_vector)
    requires
        prefix <= 32,
    ensures
        octet(mask_bits(prefix), 0) < 256,
        octet(mask_bits(prefix), 1) < 256,
        octet(mask_bits(prefix), 2) < 256,
        octet(mask_bits(prefix), 3) < 256,
        octet_ones(octet(mask_bits(prefix), 0)) + octet_ones(octet(mask_bits(prefix), 1))
            + octet_ones(octet(mask_bits(prefix), 2)) + octet_ones(octet(mask_bits(prefix), 3))
            == prefix,
{
}

proof fn lemma_decimal_digits(n: nat)
    ensures
        decimal(n).len() > 0,
        forall|i: int| 0 <= i < decimal(n).len() ==> is_digit(#[trigger] decimal(n)[i]),
        digits_value(decimal(n)) == n,
    decreases n,
{
    if n >= 10 {
        lemma_decimal_digits(n / 10);
        assert(decimal(n).drop_last() =~= decimal(n / 10));
        lemma_digit_char(n % 10);
        assert('0' as nat == 48);
        assert(decimal(n).last() == digit_char(n % 10));
        assert(digits_value(decimal(n)) == digits_value(decimal(n / 10)) * 10 + n % 10);
        assert((n / 10) * 10 + n % 10 == n);
    } else {
        lemma_digit_char(n);
        assert(seq![digit_char(n)].drop_last() =~= Seq::<char>::empty());
        assert('0' as nat == 48);
        assert(digits_value(Seq::<char>::empty()) == 0);
        assert(decimal(n).last() == digit_char(n));
    }
}

proof fn lemma_digit_char(d: nat)
    requires
        d < 10,
    ensures
        digit_char(d) as nat == d + 48,
{
    let b = (d + 48) as u8;
    assert(b as char as u32 == b as u32);
}

proof fn lemma_parse_decimal(v: nat)
    requires
        v <= 255,
    ensures
        parse_u8_spec(decimal(v)) == Some(v as u8),
{
    lemma_decimal_digits(v);
    assert(is_digit(decimal(v)[0]));
}

/// Appending text without separators extends the last piece.
proof fn lemma_split_append_plain(x: Seq<char>, y: Seq<char>, sep: char)
    requires
        forall|i: int| 0 <= i < y.len() ==> #[trigger] y[i] != sep,
    ensures
        split_on(x + y, sep) == split_on(x, sep).update(
            split_on(x, sep).len() - 1,
            split_on(x, sep).last() + y,
        ),
        split_on(x, sep).len() > 0,
    decreases y.len(),
{
    lemma_split_nonempty(x, sep);
    if y.len() == 0 {
        assert(x + y =~= x);
        assert(split_on(x, sep).last() + y =~= split_on(x, sep).last());
        assert(split_on(x, sep).update(split_on(x, sep).len() - 1, split_on(x, sep).last())
            =~= split_on(x, sep));
    } else {
        let y0 = y.drop_last();
        lemma_split_append_plain(x, y0, sep);
        assert((x + y).drop_last() =~= x + y0);
        assert((x + y).last() == y.last());
        assert(y[y.len() - 1] != sep);
        let s0 = split_on(x, sep);
        let init = split_on(x + y0, sep);
        assert(init == s0.update(s0.len() - 1, s0.last() + y0));
        assert(init.len() == s0.len());
        assert(init.last() == s0.last() + y0);
        assert(split_on(x + y, sep) == init.update(init.len() - 1, init.last().push(y.last())));
        assert((s0.last() + y0).push(y.last()) =~= s0.last() + y);
        assert(split_on(x, sep).last() + y0 + seq![y.last()] =~= split_on(x, sep).last() + y);
        assert(split_on(x + y, sep) =~= split_on(x, sep).update(
            split_on(x, sep).len() - 1,
            split_on(x, sep).last() + y,
        ));
    }
}

pub(crate) proof fn lemma_split_nonempty(x: Seq<char>, sep: char)
    ensures
        split_on(x, sep).len() > 0,
    decreases x.len(),
{
    if x.len() > 0 {
        lemma_split_nonempty(x.drop_last(), sep);
    }
}

/// Appending a separator starts a new, empty piece.
proof fn lemma_split_append_sep(x: Seq<char>, sep: char)
    ensures
        split_on(x + seq![sep], sep) == split_on(x, sep).push(Seq::empty()),
{
    assert((x + seq![sep]).drop_last() =~= x);
}

proof fn lemma_decimal_has_no_dot(n: nat)
    ensures
        forall|i: int| 0 <= i < decimal(n).len() ==> #[trigger] decimal(n)[i] != '.',
{
    lemma_decimal_digits(n);
    assert forall|i: int| 0 <= i < decimal(n).len() implies #[trigger] decimal(n)[i] != '.' by {
        assert(is_digit(decimal(n)[i]));
    }
}

proof fn lemma_split_dotted_quad(m: u32)
    ensures
        split_on(dotted_quad(m), '.') == seq![
            decimal(octet(m, 0) as nat),
            decimal(octet(m, 1) as nat),
            decimal(octet(m, 2) as nat),
            decimal(octet(m, 3) as nat),
        ],
{
    let d0 = decimal(octet(m, 0) as nat);
    let d1 = decimal(octet(m, 1) as nat);
    let d2 = decimal(octet(m, 2) as nat);
    let d3 = decimal(octet(m, 3) as nat);
    let dot = seq!['.'];
    lemma_decimal_has_no_dot(octet(m, 0) as nat);
    lemma_decimal_has_no_dot(octet(m, 1) as nat);
    lemma_decimal_has_no_dot(octet(m, 2) as nat);
    lemma_decimal_has_no_dot(octet(m, 3) as nat);
    let e = Seq::<char>::empty();
    assert(split_on(e, '.') == seq![e]);
    lemma_split_append_plain(e, d0, '.');
    assert(e + d0 =~= d0);
    assert(split_on(d0, '.') =~= seq![d0]);
    lemma_split_append_sep(d0, '.');
    lemma_split_append_plain(d0 + dot, d1, '.');
    assert(split_on(d0 + dot + d1, '.') =~= seq![d0, d1]);
    lemma_split_append_sep(d0 + dot + d1, '.');
    lemma_split_append_plain(d0 + dot + d1 + dot, d2, '.');
    assert(split_on(d0 + dot + d1 + dot + d2, '.') =~= seq![d0, d1, d2]);
    lemma_split_append_sep(d0 + dot + d1 + dot + d2, '.');
    lemma_split_append_plain(d0 + dot + d1 + dot + d2 + dot, d3, '.');
    assert(split_on(d0 + dot + d1 + dot + d2 + dot + d3, '.') =~= seq![d0, d1, d2, d3]);
}

/// A canonical mask (one produced from a prefix length of at most 32) reads
/// back as that prefix length, and converting it back again reproduces the
/// mask exactly.
pub proof fn lemma_canonical_mask_round_trip(prefix: u8)
    requires
        prefix <= 32,
    ensures
        prefix_of(subnet_of(prefix)) == prefix,
        subnet_of(prefix_of(subnet_of(prefix))) == subnet_of(prefix),
{
    let m = mask_bits(prefix);
    lemma_mask_octets(prefix);
    lemma_split_dotted_quad(m);
    lemma_parse_decimal(octet(m, 0) as nat);
    lemma_parse_decimal(octet(m, 1) as nat);
    lemma_parse_decimal(octet(m, 2) as nat);
    lemma_parse_decimal(octet(m, 3) as nat);
}

} // verus!
