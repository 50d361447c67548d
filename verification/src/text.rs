use vstd::prelude::*;
use vstd::string::StrSliceExecFns;
use vstd::string::StringExecFns;
use crate::address::Address;

verus! {

/// A decimal digit character.
pub open spec fn is_digit_char(c: char) -> bool {
    '0' <= c <= '9'
}

/// A lower-case hexadecimal digit character.
pub open spec fn is_hex_char(c: char) -> bool {
    is_digit_char(c) || ('a' <= c <= 'f')
}

/// The value of one digit character; hex letters follow the digits.
pub open spec fn hex_digit_of(c: char) -> nat {
    if is_digit_char(c) {
        (c as int - 48) as nat
    } else {
        (c as int - 87) as nat
    }
}

pub open spec fn all_digits(s: Seq<char>) -> bool {
    forall|i: int| 0 <= i < s.len() ==> is_digit_char(#[trigger] s[i])
}

pub open spec fn all_hex_digits(s: Seq<char>) -> bool {
    forall|i: int| 0 <= i < s.len() ==> is_hex_char(#[trigger] s[i])
}

/// The number a string of decimal digits denotes.
pub open spec fn dec_val(s: Seq<char>) -> nat
    decreases s.len(),
{
    if s.len() == 0 {
        0
    } else {
        (dec_val(s.drop_last()) * 10 + hex_digit_of(s.last())) as nat
    }
}

/// The number a string of hexadecimal digits denotes.
pub open spec fn hex_val(s: Seq<char>) -> nat
    decreases s.len(),
{
    if s.len() == 0 {
        0
    } else {
        (hex_val(s.drop_last()) * 16 + hex_digit_of(s.last())) as nat
    }
}

/// The digit character for a value below 16.
pub open spec fn hex_digit_char(d: nat) -> char {
    if d == 0 {
        '0'
    } else if d == 1 {
        '1'
    } else if d == 2 {
        '2'
    } else if d == 3 {
        '3'
    } else if d == 4 {
        '4'
    } else if d == 5 {
        '5'
    } else if d == 6 {
        '6'
    } else if d == 7 {
        '7'
    } else if d == 8 {
        '8'
    } else if d == 9 {
        '9'
    } else if d == 10 {
        'a'
    } else if d == 11 {
        'b'
    } else if d == 12 {
        'c'
    } else if d == 13 {
        'd'
    } else if d == 14 {
        'e'
    } else {
        'f'
    }
}

/// The canonical decimal rendering of a number, no leading zeros.
pub open spec fn u64_to_dec(n: nat) -> Seq<char>
    decreases n,
{
    if n < 10 {
        seq![hex_digit_char(n)]
    } else {
        u64_to_dec(n / 10).push(hex_digit_char(n % 10))
    }
}

/// The fixed-width hexadecimal rendering of a number, leading zeros
/// kept.
pub open spec fn u64_to_hex(n: nat, width: nat) -> Seq<char>
    decreases width,
{
    if width == 0 {
        Seq::<char>::empty()
    } else {
        u64_to_hex(n / 16, (width - 1) as nat).push(hex_digit_char(n % 16))
    }
}

/// 16 to the power k.
pub open spec fn p16(k: nat) -> nat
    decreases k,
{
    if k == 0 {
        1
    } else {
        16 * p16((k - 1) as nat)
    }
}

pub proof fn lemma_p16_values()
    ensures
        p16(8) == 0x1_0000_0000,
        p16(16) == 0x1_0000_0000_0000_0000,
{
    assert(p16(0) == 1);
    assert(p16(1) == 16);
    assert(p16(2) == 0x100);
    assert(p16(3) == 0x1000);
    assert(p16(4) == 0x1_0000);
    assert(p16(5) == 0x10_0000);
    assert(p16(6) == 0x100_0000);
    assert(p16(7) == 0x1000_0000);
    assert(p16(8) == 0x1_0000_0000);
    assert(p16(9) == 0x10_0000_0000);
    assert(p16(10) == 0x100_0000_0000);
    assert(p16(11) == 0x1000_0000_0000);
    assert(p16(12) == 0x1_0000_0000_0000);
    assert(p16(13) == 0x10_0000_0000_0000);
    assert(p16(14) == 0x100_0000_0000_0000);
    assert(p16(15) == 0x1000_0000_0000_0000);
    assert(p16(16) == 0x1_0000_0000_0000_0000);
}

/// The digit characters denote the values they were made from.
pub proof fn lemma_digit_value(d: nat)
    requires
        d < 16,
    ensures
        hex_digit_of(hex_digit_char(d)) == d,
        is_hex_char(hex_digit_char(d)),
        d < 10 ==> is_digit_char(hex_digit_char(d)),
{
}

/// The canonical decimal rendering is digits only and denotes the
/// number it was made from.
pub proof fn lemma_dec_canonical(n: nat)
    ensures
        u64_to_dec(n).len() >= 1,
        all_digits(u64_to_dec(n)),
        dec_val(u64_to_dec(n)) == n,
    decreases n,
{
    if n < 10 {
        lemma_digit_value(n);
        let s = u64_to_dec(n);
        assert(s.drop_last() =~= Seq::<char>::empty());
        assert(s.len() == 1);
        assert(s.last() == hex_digit_char(n));
        assert(dec_val(s.drop_last()) == 0);
        assert(hex_digit_of(s.last()) == n);
        assert(dec_val(s) == n);
    } else {
        lemma_digit_value(n % 10);
        lemma_dec_canonical(n / 10);
        let p = u64_to_dec(n / 10);
        let s = u64_to_dec(n);
        assert(s.drop_last() =~= p);
        assert(s.last() == hex_digit_char(n % 10));
        assert(dec_val(s) == dec_val(p) * 10 + hex_digit_of(hex_digit_char(n % 10)));
        assert forall|i: int| 0 <= i < s.len() implies is_digit_char(#[trigger] s[i]) by {
            if i < p.len() {
                assert(s[i] == p[i]);
            }
        }
    }
}

/// The fixed-width hexadecimal rendering is hex digits only, has the
/// asked width, and denotes the number it was made from whenever that
/// number fits the width.
pub proof fn lemma_hex_canonical(n: nat, width: nat)
    ensures
        u64_to_hex(n, width).len() == width,
        all_hex_digits(u64_to_hex(n, width)),
        n < p16(width) ==> hex_val(u64_to_hex(n, width)) == n,
    decreases width,
{
    if width > 0 {
        lemma_digit_value(n % 16);
        lemma_hex_canonical(n / 16, (width - 1) as nat);
        let p = u64_to_hex(n / 16, (width - 1) as nat);
        let s = u64_to_hex(n, width);
        assert(s.drop_last() =~= p);
        assert(s.last() == hex_digit_char(n % 16));
        assert forall|i: int| 0 <= i < s.len() implies is_hex_char(#[trigger] s[i]) by {
            if i < p.len() {
                assert(s[i] == p[i]);
            }
        }
        if n < p16(width) {
            assert(p16(width) == 16 * p16((width - 1) as nat));
            assert(n / 16 < p16((width - 1) as nat));
        }
    }
}

/// A longer prefix of a digit string never denotes a smaller number.
pub proof fn lemma_dec_val_take_le(s: Seq<char>, j: int, k: int)
    requires
        0 <= j <= k <= s.len(),
    ensures
        dec_val(s.take(j)) <= dec_val(s.take(k)),
    decreases k - j,
{
    if j < k {
        assert(s.take(j + 1).drop_last() =~= s.take(j));
        assert(dec_val(s.take(j + 1)) == dec_val(s.take(j)) * 10 + hex_digit_of(s.take(j + 1).last()));
        lemma_dec_val_take_le(s, j + 1, k);
    }
}

/// A hexadecimal string's value fits its width.
pub proof fn lemma_hex_val_bound(s: Seq<char>)
    requires
        all_hex_digits(s),
    ensures
        hex_val(s) < p16(s.len()),
    decreases s.len(),
{
    if s.len() > 0 {
        assert(all_hex_digits(s.drop_last())) by {
            assert forall|i: int| 0 <= i < s.len() - 1 implies is_hex_char(
                #[trigger] s.drop_last()[i],
            ) by {
                assert(s.drop_last()[i] == s[i]);
            }
        }
        lemma_hex_val_bound(s.drop_last());
        assert(is_hex_char(s.last()));
        assert(hex_digit_of(s.last()) < 16);
    }
}

/// The one-character string of a digit value below 16.
fn hex_digit_str(d: u64) -> (r: &'static str)
    requires
        d < 16,
    ensures
        r@ =~= seq![hex_digit_char(d as nat)],
{
    let r: &'static str = match d {
        0 => "0",
        1 => "1",
        2 => "2",
        3 => "3",
        4 => "4",
        5 => "5",
        6 => "6",
        7 => "7",
        8 => "8",
        9 => "9",
        10 => "a",
        11 => "b",
        12 => "c",
        13 => "d",
        14 => "e",
        _ => "f",
    };
    proof {
        reveal_strlit("0");
        reveal_strlit("1");
        reveal_strlit("2");
        reveal_strlit("3");
        reveal_strlit("4");
        reveal_strlit("5");
        reveal_strlit("6");
        reveal_strlit("7");
        reveal_strlit("8");
        reveal_strlit("9");
        reveal_strlit("a");
        reveal_strlit("b");
        reveal_strlit("c");
        reveal_strlit("d");
        reveal_strlit("e");
        reveal_strlit("f");
    }
    r
}

/// Renders a number in decimal, canonically.
pub fn to_dec(n: u64) -> (r: String)
    ensures
        r@ == u64_to_dec(n as nat),
    decreases n,
{
    if n < 10 {
        hex_digit_str(n).to_string()
    } else {
        let mut s = to_dec(n / 10);
        let d = hex_digit_str(n % 10);
        s.append(d);
        proof {
            assert(u64_to_dec((n / 10) as nat).push(hex_digit_char((n % 10) as nat)) =~= u64_to_dec(
                (n / 10) as nat,
            ) + seq![hex_digit_char((n % 10) as nat)]);
        }
        s
    }
}

/// Renders a number in hexadecimal at a fixed width, leading zeros
/// kept.
pub fn to_hex_fixed(n: u64, width: usize) -> (r: String)
    ensures
        r@ == u64_to_hex(n as nat, width as nat),
    decreases width,
{
    if width == 0 {
        String::new()
    } else {
        let mut s = to_hex_fixed(n / 16, width - 1);
        let d = hex_digit_str(n % 16);
        s.append(d);
        proof {
            assert(u64_to_hex((n / 16) as nat, (width - 1) as nat).push(
                hex_digit_char((n % 16) as nat),
            ) =~= u64_to_hex((n / 16) as nat, (width - 1) as nat) + seq![
                hex_digit_char((n % 16) as nat),
            ]);
        }
        s
    }
}

/// Parses a decimal string; succeeds exactly on non-empty digit
/// strings whose value fits.
pub fn parse_dec(s: &str) -> (r: Option<u64>)
    ensures
        r is Some <==> (s@.len() > 0 && all_digits(s@) && dec_val(s@) <= u64::MAX),
        r matches Some(v) ==> v == dec_val(s@),
{
    let n = s.unicode_len();
    if n == 0 {
        return None;
    }
    let mut acc: u128 = 0;
    let mut i: usize = 0;
    proof {
        assert(s@.take(0) =~= Seq::<char>::empty());
    }
    while i < n
        invariant
            n == s@.len(),
            i <= n,
            forall|k: int| 0 <= k < i ==> is_digit_char(#[trigger] s@[k]),
            acc == dec_val(s@.take(i as int)),
            acc <= u64::MAX,
        decreases n - i,
    {
        let c = s.get_char(i);
        if c < '0' || c > '9' {
            return None;
        }
        proof {
            assert(s@.take(i + 1).drop_last() =~= s@.take(i as int));
            assert(s@.take(i + 1).last() == s@[i as int]);
        }
        let d = (c as u8) - 48;
        acc = acc * 10 + (d as u128);
        if acc > (u64::MAX as u128) {
            proof {
                lemma_dec_val_take_le(s@, i + 1, s@.len() as int);
                assert(s@.take(s@.len() as int) =~= s@);
            }
            return None;
        }
        i = i + 1;
    }
    proof {
        assert(s@.take(n as int) =~= s@);
    }
    Some(acc as u64)
}

/// Parses a fixed-width lower-case hexadecimal string; succeeds
/// exactly on hex-digit strings of that width.
pub fn parse_hex_fixed(s: &str, width: usize) -> (r: Option<u64>)
    requires
        width <= 16,
    ensures
        r is Some <==> (s@.len() == width && all_hex_digits(s@)),
        r matches Some(v) ==> v == hex_val(s@),
{
    let n = s.unicode_len();
    if n != width {
        return None;
    }
    let mut acc: u128 = 0;
    let mut i: usize = 0;
    proof {
        assert(s@.take(0) =~= Seq::<char>::empty());
        lemma_p16_values();
    }
    while i < n
        invariant
            n == s@.len(),
            n == width <= 16,
            i <= n,
            forall|k: int| 0 <= k < i ==> is_hex_char(#[trigger] s@[k]),
            acc == hex_val(s@.take(i as int)),
            acc < 0x1_0000_0000_0000_0000,
        decreases n - i,
    {
        let c = s.get_char(i);
        let d: u8;
        if '0' <= c && c <= '9' {
            d = (c as u8) - 48;
        } else if 'a' <= c && c <= 'f' {
            d = (c as u8) - 87;
        } else {
            return None;
        }
        proof {
            assert(s@.take(i + 1).drop_last() =~= s@.take(i as int));
            assert(s@.take(i + 1).last() == s@[i as int]);
            assert(all_hex_digits(s@.take(i + 1))) by {
                assert forall|k: int| 0 <= k < i + 1 implies is_hex_char(
                    #[trigger] s@.take(i + 1)[k],
                ) by {
                    assert(s@.take(i + 1)[k] == s@[k]);
                }
            }
            lemma_hex_val_bound(s@.take(i + 1));
            lemma_p16_values();
            assert(p16(s@.take(i + 1).len() as nat) <= p16(16)) by {
                lemma_p16_mono(s@.take(i + 1).len() as nat, 16);
            }
        }
        acc = acc * 16 + (d as u128);
        i = i + 1;
    }
    proof {
        assert(s@.take(n as int) =~= s@);
    }
    Some(acc as u64)
}

pub proof fn lemma_p16_mono(j: nat, k: nat)
    requires
        j <= k,
    ensures
        p16(j) <= p16(k),
    decreases k,
{
    if j < k && k > 0 {
        lemma_p16_mono(j, (k - 1) as nat);
        assert(p16(k) == 16 * p16((k - 1) as nat));
    }
}

/// The textual form of an address: `0x`, then the three fields at
/// their full widths.
pub open spec fn address_hex(a: Address) -> Seq<char> {
    "0x"@ + u64_to_hex(a.hi as nat, 16) + u64_to_hex(a.mid as nat, 16) + u64_to_hex(a.lo as nat, 8)
}

/// Renders an address as `0x` plus forty lower-case hex digits.
pub fn address_to_hex(a: &Address) -> (r: String)
    ensures
        r@ == address_hex(*a),
{
    let mut s = "0x".to_string();
    let hi = to_hex_fixed(a.hi, 16);
    s.append(hi.as_str());
    let mid = to_hex_fixed(a.mid, 16);
    s.append(mid.as_str());
    let lo = to_hex_fixed(a.lo as u64, 8);
    s.append(lo.as_str());
    s
}

/// Parses the textual form of an address; succeeds exactly on `0x`
/// followed by forty lower-case hex digits.
pub fn address_from_hex(s: &str) -> (r: Option<Address>)
    ensures
        r is Some <==> (s@.len() == 42 && s@[0] == '0' && s@[1] == 'x' && all_hex_digits(
            s@.subrange(2, 18),
        ) && all_hex_digits(s@.subrange(18, 34)) && all_hex_digits(s@.subrange(34, 42))),
        r matches Some(a) ==> a == (Address {
            hi: hex_val(s@.subrange(2, 18)) as u64,
            mid: hex_val(s@.subrange(18, 34)) as u64,
            lo: hex_val(s@.subrange(34, 42)) as u32,
        }),
{
    let n = s.unicode_len();
    if n != 42 {
        return None;
    }
    if s.get_char(0) != '0' {
        return None;
    }
    if s.get_char(1) != 'x' {
        return None;
    }
    let hi_part = s.substring_char(2, 18);
    let mid_part = s.substring_char(18, 34);
    let lo_part = s.substring_char(34, 42);
    let hi = match parse_hex_fixed(hi_part, 16) {
        Some(v) => v,
        None => {
            return None;
        },
    };
    let mid = match parse_hex_fixed(mid_part, 16) {
        Some(v) => v,
        None => {
            return None;
        },
    };
    let lo = match parse_hex_fixed(lo_part, 8) {
        Some(v) => v,
        None => {
            return None;
        },
    };
    proof {
        lemma_hex_val_bound(s@.subrange(34, 42));
        lemma_p16_values();
    }
    Some(Address { hi, mid, lo: lo as u32 })
}

/// Rendering an address and parsing the text back yields the address
/// it came from, field for field.
pub proof fn lemma_address_hex_round_trip(a: Address)
    ensures
        address_hex(a).len() == 42,
        address_hex(a)[0] == '0',
        address_hex(a)[1] == 'x',
        all_hex_digits(address_hex(a).subrange(2, 18)),
        all_hex_digits(address_hex(a).subrange(18, 34)),
        all_hex_digits(address_hex(a).subrange(34, 42)),
        hex_val(address_hex(a).subrange(2, 18)) == a.hi,
        hex_val(address_hex(a).subrange(18, 34)) == a.mid,
        hex_val(address_hex(a).subrange(34, 42)) == a.lo,
{
    reveal_strlit("0x");
    lemma_hex_canonical(a.hi as nat, 16);
    lemma_hex_canonical(a.mid as nat, 16);
    lemma_hex_canonical(a.lo as nat, 8);
    lemma_p16_values();
    lemma_p16_mono(8, 16);
    let t = address_hex(a);
    assert(t.subrange(2, 18) =~= u64_to_hex(a.hi as nat, 16));
    assert(t.subrange(18, 34) =~= u64_to_hex(a.mid as nat, 16));
    assert(t.subrange(34, 42) =~= u64_to_hex(a.lo as nat, 8));
}

/// Rendering a number in decimal and parsing the text back yields the
/// number it came from.
pub proof fn lemma_dec_round_trip(n: u64)
    ensures
        u64_to_dec(n as nat).len() > 0,
        all_digits(u64_to_dec(n as nat)),
        dec_val(u64_to_dec(n as nat)) == n,
{
    lemma_dec_canonical(n as nat);
}

} // verus!
