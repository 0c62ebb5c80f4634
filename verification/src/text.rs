use vstd::prelude::*;

verus! {

/// The hex digit for `d` (0..=15), upper or lower case.
pub open spec fn hex_char(d: nat, upper: bool) -> char {
    if d < 10 {
        (('0' as nat) + d) as char
    } else if upper {
        (('A' as nat) + (d - 10)) as char
    } else {
        (('a' as nat) + (d - 10)) as char
    }
}

/// `n` written in hex with exactly `width` digits (the low `width` digits of `n`).
pub open spec fn hex_digits(n: nat, width: nat, upper: bool) -> Seq<char>
    decreases width,
{
    if width == 0 {
        Seq::empty()
    } else {
        hex_digits(n / 16, (width - 1) as nat, upper).push(hex_char(n % 16, upper))
    }
}

/// `n` written in decimal, without leading zeros.
pub open spec fn decimal_digits(n: nat) -> Seq<char>
    decreases n,
{
    if n < 10 {
        seq![hex_char(n, false)]
    } else {
        decimal_digits(n / 10).push(hex_char(n % 10, false))
    }
}

/// What `String::from_utf8_lossy` makes of a byte sequence.
pub uninterp spec fn utf8_lossy(bytes: Seq<u8>) -> Seq<char>;

/// `String::from_utf8_lossy` (std), made an owned `String`. The contract
/// claims that the result is a function of the bytes alone (named
/// `utf8_lossy`), and, as the documentation gives for valid UTF-8, that ASCII
/// bytes come back one char per byte. What it makes of other bytes is left unsaid.
#[verifier::external_body]
pub(crate) fn string_from_utf8_lossy(bytes: &[u8]) -> (s: String)
    ensures
        s@ == utf8_lossy(bytes@),
        (forall|i: int| 0 <= i < bytes@.len() ==> #[trigger] bytes@[i] < 0x80u8) ==> s@
            == bytes@.map_values(|b: u8| b as char),
{
    String::from_utf8_lossy(bytes).into_owned()
}

/// `String::push` (std): appends one char to the string. The contract claims
/// that the string's chars afterwards are the old chars followed by `c`.
#[verifier::external_body]
pub(crate) fn push_char(s: &mut String, c: char)
    ensures
        final(s)@ == old(s)@.push(c),
{
    s.push(c)
}

pub(crate) fn hex_char_of(d: u8, upper: bool) -> (c: char)
    requires
        d < 16,
    ensures
        c == hex_char(d as nat, upper),
{
    match d {
        0 => '0',
        1 => '1',
        2 => '2',
        3 => '3',
        4 => '4',
        5 => '5',
        6 => '6',
        7 => '7',
        8 => '8',
        9 => '9',
        10 => if upper { 'A' } else { 'a' },
        11 => if upper { 'B' } else { 'b' },
        12 => if upper { 'C' } else { 'c' },
        13 => if upper { 'D' } else { 'd' },
        14 => if upper { 'E' } else { 'e' },
        _ => if upper { 'F' } else { 'f' },
    }
}

/// Appends `n` in hex with exactly `width` digits.
pub(crate) fn push_hex(s: &mut String, n: u64, width: u32, upper: bool)
    ensures
        final(s)@ == old(s)@ + hex_digits(n as nat, width as nat, upper),
    decreases width,
{
    if width > 0 {
        push_hex(s, n / 16, width - 1, upper);
        push_char(s, hex_char_of((n % 16) as u8, upper));
    }
}

/// Appends `n` in decimal.
pub(crate) fn push_decimal(s: &mut String, n: u64)
    ensures
        final(s)@ == old(s)@ + decimal_digits(n as nat),
    decreases n,
{
    if n >= 10 {
        push_decimal(s, n / 10);
    }
    push_char(s, hex_char_of((n % 10) as u8, false));
}

/// The first `n` bytes of an identifier in lowercase hex, two digits per
/// byte, with a space before each 4-byte word but the first.
pub open spec fn identifier_hex_prefix(bytes: Seq<u8>, n: nat) -> Seq<char>
    decreases n,
{
    if n == 0 {
        Seq::empty()
    } else {
        let k = (n - 1) as nat;
        let sep: Seq<char> = if k > 0 && k % 4 == 0 { seq![' '] } else { Seq::empty() };
        identifier_hex_prefix(bytes, k) + sep + hex_digits(bytes[k as int] as nat, 2, false)
    }
}

/// A raw identifier as lowercase hex, grouped in 4-byte words.
pub open spec fn identifier_hex(bytes: Seq<u8>) -> Seq<char> {
    identifier_hex_prefix(bytes, bytes.len())
}

/// Format a raw identifier as lowercase hex, grouped in 4-byte words for
/// readability, e.g. `a1b2c3d4 000f`.
pub fn format_identifier_hex(bytes: &[u8]) -> (s: String)
    ensures
        s@ == identifier_hex(bytes@),
{
    let mut s = String::new();
    let mut i: usize = 0;
    while i < bytes.len()
        invariant
            i <= bytes@.len(),
            s@ == identifier_hex_prefix(bytes@, i as nat),
        decreases bytes@.len() - i,
    {
        if i > 0 && i % 4 == 0 {
            push_char(&mut s, ' ');
        }
        push_hex(&mut s, bytes[i] as u64, 2, false);
        i = i + 1;
    }
    s
}

/// Length law: `n` bytes give two digits each and one space per word boundary.
pub proof fn lemma_identifier_hex_len(bytes: Seq<u8>, n: nat)
    requires
        n <= bytes.len(),
    ensures
        identifier_hex_prefix(bytes, n).len() == 2 * n + (if n == 0 { 0 } else { ((n - 1) / 4) as int }),
    decreases n,
{
    if n > 0 {
        lemma_identifier_hex_len(bytes, (n - 1) as nat);
        lemma_hex_digits_len(bytes[n - 1] as nat, 2, false);
    }
}

/// No hex digit is a space.
pub proof fn lemma_hex_digits_no_space(v: nat, width: nat, upper: bool)
    ensures
        forall|i: int| 0 <= i < hex_digits(v, width, upper).len() ==> #[trigger] hex_digits(v, width, upper)[i] != ' ',
    decreases width,
{
    if width > 0 {
        lemma_hex_digits_no_space(v / 16, (width - 1) as nat, upper);
        let d = v % 16;
        let c = hex_char(d, upper);
        if d < 10 {
            assert(c as nat == '0' as nat + d);
        } else if upper {
            assert(c as nat == 'A' as nat + (d - 10));
        } else {
            assert(c as nat == 'a' as nat + (d - 10));
        }
        assert(c != ' ');
        let prev = hex_digits(v / 16, (width - 1) as nat, upper);
        assert(hex_digits(v, width, upper) == prev.push(c));
        assert forall|i: int| 0 <= i < hex_digits(v, width, upper).len() implies #[trigger] hex_digits(v, width, upper)[i] != ' ' by {
            if i < prev.len() {
                assert(hex_digits(v, width, upper)[i] == prev[i]);
            }
        }
    }
}

/// Where the word separator and the digits of byte `k` land in the hex of an
/// identifier: the text before them is `2 * k + (k - 1) / 4` chars long.
proof fn lemma_group_positions(k: nat)
    ensures
        ({
            let len = 2 * k + (if k == 0 { 0 } else { (k - 1) / 4 });
            &&& (k > 0 && k % 4 == 0) ==> len % 9 == 8 && (len + 1) % 9 == 0 && (len + 2) % 9 == 1
            &&& !(k > 0 && k % 4 == 0) ==> len % 9 != 8 && (len + 1) % 9 != 8
        }),
{
    let m = k / 4;
    let r = k % 4;
    assert(k == 4 * m + r);
    if k > 0 && r == 0 {
        assert((k - 1) / 4 == m - 1);
        let len = 9 * m - 1;
        assert(len % 9 == 8);
        assert((len + 1) % 9 == 0);
        assert((len + 2) % 9 == 1);
    } else if k > 0 {
        assert((k - 1) / 4 == m);
        let len = 9 * m + 2 * r;
        assert(len % 9 == 2 * r);
        assert((len + 1) % 9 == 2 * r + 1);
    }
}

/// Where the two digits of byte `i` of an identifier stand: word `i / 4`
/// starts at `9 * (i / 4)`, and byte `i % 4` of it two places further each.
pub open spec fn identifier_digit_pos(i: int) -> int {
    9 * (i / 4) + 2 * (i % 4)
}

/// The text before byte `k`'s digits, separator included, ends where they start.
proof fn lemma_digit_pos_step(k: nat)
    ensures
        2 * k + (if k == 0 { 0 } else { (k - 1) / 4 }) + (if k > 0 && k % 4 == 0 { 1int } else { 0int })
            == identifier_digit_pos(k as int),
{
    let m = k / 4;
    let r = k % 4;
    assert(k == 4 * m + r);
    if k > 0 && r == 0 {
        assert((k - 1) / 4 == m - 1);
    } else if k > 0 {
        assert((k - 1) / 4 == m);
    }
}

/// Word law: byte `i` of an identifier stands in its hex as two lowercase
/// digits at `identifier_digit_pos(i)`: in word `i / 4`, place `i % 4`.
pub proof fn lemma_identifier_hex_digits(bytes: Seq<u8>, n: nat)
    requires
        n <= bytes.len(),
    ensures
        forall|i: int|
            0 <= i < n ==> identifier_hex_prefix(bytes, n).subrange(identifier_digit_pos(i), identifier_digit_pos(i) + 2)
                == hex_digits(#[trigger] bytes[i] as nat, 2, false),
    decreases n,
{
    if n > 0 {
        let k = (n - 1) as nat;
        lemma_identifier_hex_digits(bytes, k);
        lemma_identifier_hex_len(bytes, k);
        lemma_hex_digits_len(bytes[k as int] as nat, 2, false);
        lemma_digit_pos_step(k);
        let p = identifier_hex_prefix(bytes, k);
        let h = hex_digits(bytes[k as int] as nat, 2, false);
        let sep: Seq<char> = if k > 0 && k % 4 == 0 { seq![' '] } else { Seq::empty() };
        let whole = identifier_hex_prefix(bytes, n);
        assert(whole == p + sep + h);
        assert forall|i: int| 0 <= i < n implies whole.subrange(identifier_digit_pos(i), identifier_digit_pos(i) + 2)
            == hex_digits(#[trigger] bytes[i] as nat, 2, false) by {
            if i < k {
                let q = identifier_digit_pos(i);
                lemma_digit_pos_step(i as nat);
                lemma_identifier_hex_len(bytes, (i + 1) as nat);
                assert(q + 2 <= p.len()) by {
                    lemma_digit_pos_mono(i as nat, k);
                }
                assert(whole.subrange(q, q + 2) =~= p.subrange(q, q + 2));
            } else {
                assert(whole.subrange(identifier_digit_pos(i), identifier_digit_pos(i) + 2) =~= h);
            }
        }
    }
}

/// The digits of an earlier byte end within the text before a later one.
proof fn lemma_digit_pos_mono(i: nat, k: nat)
    requires
        i < k,
    ensures
        identifier_digit_pos(i as int) + 2 <= 2 * k + (if k == 0 { 0 } else { (k - 1) / 4 }),
{
    let m = i / 4;
    let r = i % 4;
    assert(i == 4 * m + r);
    let mk = k / 4;
    let rk = k % 4;
    assert(k == 4 * mk + rk);
    assert((k - 1) / 4 >= m) by {
        assert(k - 1 >= 4 * m);
    }
}

/// Grouping law: in the hex of an identifier the spaces stand exactly at
/// every ninth position, after each 4-byte word of eight digits.
pub proof fn lemma_identifier_hex_groups(bytes: Seq<u8>, n: nat)
    requires
        n <= bytes.len(),
    ensures
        forall|j: int|
            0 <= j < identifier_hex_prefix(bytes, n).len() ==> (#[trigger] identifier_hex_prefix(bytes, n)[j] == ' ' <==> j % 9 == 8),
    decreases n,
{
    if n > 0 {
        let k = (n - 1) as nat;
        lemma_identifier_hex_groups(bytes, k);
        lemma_identifier_hex_len(bytes, k);
        lemma_hex_digits_len(bytes[k as int] as nat, 2, false);
        lemma_hex_digits_no_space(bytes[k as int] as nat, 2, false);
        let p = identifier_hex_prefix(bytes, k);
        let h = hex_digits(bytes[k as int] as nat, 2, false);
        let sep: Seq<char> = if k > 0 && k % 4 == 0 { seq![' '] } else { Seq::empty() };
        let whole = identifier_hex_prefix(bytes, n);
        assert(whole == p + sep + h);
        let len = p.len() as int;
        lemma_group_positions(k);
        assert forall|j: int| 0 <= j < whole.len() implies (#[trigger] whole[j] == ' ' <==> j % 9 == 8) by {
            if j < len {
                assert(whole[j] == p[j]);
            } else if j < len + sep.len() {
                assert(whole[j] == ' ');
            } else {
                assert(whole[j] == h[j - len - sep.len()]);
            }
        }
    }
}

/// `hex_digits` always yields exactly `width` digits.
pub proof fn lemma_hex_digits_len(v: nat, width: nat, upper: bool)
    ensures
        hex_digits(v, width, upper).len() == width,
    decreases width,
{
    if width > 0 {
        lemma_hex_digits_len(v / 16, (width - 1) as nat, upper);
    }
}

} // verus!
