//! Identifiers for aggregates and foreign entities.
//!
//! A `Uuid` is held as its 128-bit value. Its textual form is the hyphenated
//! one, `xxxxxxxx-xxxx-xxxx-xxxx-xxxxxxxxxxxx` with 32 hexadecimal digits:
//! parsing accepts both digit cases, formatting emits lowercase.

use vstd::prelude::*;
use vstd::string::StrSliceExecFns;

verus! {

/// A universally unique identifier, held as its 128-bit value.
#[derive(Clone, Copy, PartialEq, Eq, Structural, Hash, Debug)]
pub struct Uuid {
    pub value: u128,
}

/// Whether `c` is a hexadecimal digit, either case.
pub open spec fn is_hex_digit(c: char) -> bool {
    (48 <= c as u32 && c as u32 <= 57)  // '0' ..= '9'
    || (97 <= c as u32 && c as u32 <= 102)  // 'a' ..= 'f'
    || (65 <= c as u32 && c as u32 <= 70)  // 'A' ..= 'F'
}

/// The value of a hexadecimal digit; 0 for any other character.
pub open spec fn hex_digit_value(c: char) -> nat {
    if 48 <= c as u32 && c as u32 <= 57 {
        (c as u32 - 48) as nat
    } else if 97 <= c as u32 && c as u32 <= 102 {
        (c as u32 - 87) as nat
    } else if 65 <= c as u32 && c as u32 <= 70 {
        (c as u32 - 55) as nat
    } else {
        0
    }
}

/// The value of a big-endian sequence of hexadecimal digits.
pub open spec fn hex_seq_value(s: Seq<char>) -> nat
    decreases s.len(),
{
    if s.len() == 0 {
        0
    } else {
        hex_seq_value(s.drop_last()) * 16 + hex_digit_value(s.last())
    }
}

/// Sixteen to the power `k`.
pub open spec fn pow16(k: nat) -> nat
    decreases k,
{
    if k == 0 {
        1
    } else {
        16 * pow16((k - 1) as nat)
    }
}

/// Positions of the four hyphens in the hyphenated form.
pub open spec fn is_hyphen_position(i: int) -> bool {
    i == 8 || i == 13 || i == 18 || i == 23
}

/// Whether `s` is a hyphenated UUID string.
pub open spec fn is_uuid_string(s: Seq<char>) -> bool {
    &&& s.len() == 36
    &&& forall|i: int|
        0 <= i < 36 ==> (if is_hyphen_position(i) {
            s[i] == '-'
        } else {
            is_hex_digit(#[trigger] s[i])
        })
}

/// The 32 digits of a hyphenated UUID string, hyphens removed.
pub open spec fn uuid_digits(s: Seq<char>) -> Seq<char> {
    s.subrange(0, 8) + s.subrange(9, 13) + s.subrange(14, 18) + s.subrange(19, 23) + s.subrange(
        24,
        36,
    )
}

/// The value written by a hyphenated UUID string.
pub open spec fn uuid_string_value(s: Seq<char>) -> nat {
    hex_seq_value(uuid_digits(s))
}

/// The identifier a hyphenated UUID string names.
pub open spec fn uuid_of_string(s: Seq<char>) -> Uuid {
    Uuid { value: uuid_string_value(s) as u128 }
}

/// The value of any digit sequence of length `k` is below `16^k`.
pub proof fn lemma_hex_seq_value_bound(s: Seq<char>)
    ensures
        hex_seq_value(s) < pow16(s.len()),
    decreases s.len(),
{
    if s.len() > 0 {
        lemma_hex_seq_value_bound(s.drop_last());
    }
}

/// Reading a concatenation reads the left part shifted, plus the right part.
proof fn lemma_hex_seq_value_concat(a: Seq<char>, b: Seq<char>)
    ensures
        hex_seq_value(a + b) == hex_seq_value(a) * pow16(b.len()) + hex_seq_value(b),
    decreases b.len(),
{
    if b.len() == 0 {
        assert(a + b =~= a);
        assert(hex_seq_value(b) == 0);
        assert(pow16(b.len()) == 1);
        assert(hex_seq_value(a) * pow16(b.len()) == hex_seq_value(a));
    } else {
        lemma_hex_seq_value_concat(a, b.drop_last());
        assert((a + b).drop_last() =~= a + b.drop_last());
        assert((a + b).last() == b.last());
        assert(hex_seq_value(a + b) == hex_seq_value(a + b.drop_last()) * 16 + hex_digit_value(
            b.last(),
        ));
        assert(hex_seq_value(a + b.drop_last()) == hex_seq_value(a) * pow16((b.len() - 1) as nat)
            + hex_seq_value(b.drop_last()));
        assert(hex_seq_value(b) == hex_seq_value(b.drop_last()) * 16 + hex_digit_value(b.last()));
        assert((hex_seq_value(a) * pow16((b.len() - 1) as nat) + hex_seq_value(b.drop_last())) * 16
            == hex_seq_value(a) * (16 * pow16((b.len() - 1) as nat)) + hex_seq_value(b.drop_last())
            * 16) by (nonlinear_arith);
        assert(pow16(b.len()) == 16 * pow16((b.len() - 1) as nat));
        assert(hex_seq_value(a + b) == hex_seq_value(a) * pow16(b.len()) + hex_seq_value(b));
    }
}

/// Powers of sixteen multiply when exponents add.
proof fn lemma_pow16_adds(a: nat, b: nat)
    ensures
        pow16(a + b) == pow16(a) * pow16(b),
    decreases a,
{
    if a == 0 {
        assert(pow16(a + b) == pow16(b));
        assert(pow16(a) == 1);
        assert(pow16(a) * pow16(b) == pow16(b));
    } else {
        lemma_pow16_adds((a - 1) as nat, b);
        assert(pow16((a - 1) as nat + b) == pow16((a - 1) as nat) * pow16(b));
        assert((a + b - 1) as nat == (a - 1) as nat + b);
        assert(pow16(a + b) == 16 * pow16((a + b - 1) as nat));
        assert(pow16(a + b) == 16 * (pow16((a - 1) as nat) * pow16(b)));
        assert(16 * (pow16((a - 1) as nat) * pow16(b)) == (16 * pow16((a - 1) as nat)) * pow16(b))
            by (nonlinear_arith);
        assert(pow16(a) == 16 * pow16((a - 1) as nat));
        assert(pow16(a + b) == pow16(a) * pow16(b));
    }
}

/// The numeric values of the small powers of sixteen that group parsing uses.
proof fn lemma_pow16_values()
    ensures
        pow16(4) == 0x1_0000,
        pow16(8) == 0x1_0000_0000,
        pow16(12) == 0x1_0000_0000_0000,
        pow16(16) == 0x1_0000_0000_0000_0000,
        pow16(20) == 0x1_0000_0000_0000_0000_0000,
        pow16(24) == 0x1_0000_0000_0000_0000_0000_0000,
        pow16(32) == 0x1_0000_0000_0000_0000_0000_0000_0000_0000,
{
    assert(pow16(4) == 0x1_0000) by {
        reveal_with_fuel(pow16, 5);
    }
    lemma_pow16_adds(4, 4);
    lemma_pow16_adds(8, 4);
    lemma_pow16_adds(12, 4);
    lemma_pow16_adds(16, 4);
    lemma_pow16_adds(20, 4);
    lemma_pow16_adds(24, 8);
    assert(0x1_0000_0000_0000_0000_0000_0000 * 0x1_0000_0000
        == 0x1_0000_0000_0000_0000_0000_0000_0000_0000) by (nonlinear_arith);
}

/// `pow16` grows with its argument.
proof fn lemma_pow16_increases(j: nat, k: nat)
    requires
        j <= k,
    ensures
        pow16(j) <= pow16(k),
    decreases k,
{
    if j < k && k > 0 {
        lemma_pow16_increases(j, (k - 1) as nat);
    }
}

/// The value of a hexadecimal digit character, either case.
fn hex_digit_of(c: char) -> (r: Option<u8>)
    ensures
        r is Some <==> is_hex_digit(c),
        r is Some ==> r.unwrap() == hex_digit_value(c),
{
    let u: u32 = c as u32;
    if 48 <= u && u <= 57 {
        Some((u - 48) as u8)
    } else if 97 <= u && u <= 102 {
        Some((u - 87) as u8)
    } else if 65 <= u && u <= 70 {
        Some((u - 55) as u8)
    } else {
        None
    }
}

/// Reads the digit run `s[start..end]`; `None` exactly when a character in it
/// is not a hexadecimal digit.
fn parse_hex_group(s: &str, start: usize, end: usize) -> (r: Option<u64>)
    requires
        start <= end <= s@.len(),
        end - start <= 16,
    ensures
        r is Some <==> (forall|j: int| start <= j < end ==> is_hex_digit(#[trigger] s@[j])),
        r is Some ==> r.unwrap() == hex_seq_value(s@.subrange(start as int, end as int)),
{
    let mut value: u64 = 0;
    let mut i: usize = start;
    while i < end
        invariant
            start <= i <= end <= s@.len(),
            end - start <= 16,
            forall|j: int| start <= j < i ==> is_hex_digit(#[trigger] s@[j]),
            value == hex_seq_value(s@.subrange(start as int, i as int)),
            value < pow16((i - start) as nat),
        decreases end - i,
    {
        let c = s.get_char(i);
        let d: u64 = match hex_digit_of(c) {
            Some(d) => d as u64,
            None => {
                return None;
            },
        };
        proof {
            lemma_pow16_increases((i - start) as nat, 15);
            lemma_pow16_values();
            assert(s@.subrange(start as int, i + 1).drop_last() =~= s@.subrange(
                start as int,
                i as int,
            ));
            assert(s@.subrange(start as int, i + 1).last() == s@[i as int]);
        }
        value = value * 16 + d;
        i = i + 1;
    }
    proof {
        lemma_pow16_increases(0, (end - start) as nat);
    }
    Some(value)
}

impl Uuid {
    /// Parses the hyphenated form; `None` exactly on strings that are not in it.
    pub fn parse_str(s: &str) -> (r: Option<Uuid>)
        ensures
            r is Some <==> is_uuid_string(s@),
            r is Some ==> r.unwrap().value == uuid_string_value(s@),
            r is Some ==> r.unwrap() == uuid_of_string(s@),
    {
        if s.unicode_len() != 36 {
            return None;
        }
        if s.get_char(8) != '-' || s.get_char(13) != '-' || s.get_char(18) != '-' || s.get_char(23)
            != '-' {
            return None;
        }
        let g0 = match parse_hex_group(s, 0, 8) {
            Some(g) => g,
            None => {
                return None;
            },
        };
        let g1 = match parse_hex_group(s, 9, 13) {
            Some(g) => g,
            None => {
                return None;
            },
        };
        let g2 = match parse_hex_group(s, 14, 18) {
            Some(g) => g,
            None => {
                return None;
            },
        };
        let g3 = match parse_hex_group(s, 19, 23) {
            Some(g) => g,
            None => {
                return None;
            },
        };
        let g4 = match parse_hex_group(s, 24, 36) {
            Some(g) => g,
            None => {
                return None;
            },
        };
        proof {
            lemma_pow16_values();
            lemma_hex_seq_value_bound(s@.subrange(0, 8));
            lemma_hex_seq_value_bound(s@.subrange(9, 13));
            lemma_hex_seq_value_bound(s@.subrange(14, 18));
            lemma_hex_seq_value_bound(s@.subrange(19, 23));
            lemma_hex_seq_value_bound(s@.subrange(24, 36));
            lemma_hex_seq_value_concat(
                s@.subrange(0, 8) + s@.subrange(9, 13) + s@.subrange(14, 18) + s@.subrange(19, 23),
                s@.subrange(24, 36),
            );
            lemma_hex_seq_value_concat(
                s@.subrange(0, 8) + s@.subrange(9, 13) + s@.subrange(14, 18),
                s@.subrange(19, 23),
            );
            lemma_hex_seq_value_concat(s@.subrange(0, 8) + s@.subrange(9, 13), s@.subrange(14, 18));
            lemma_hex_seq_value_concat(s@.subrange(0, 8), s@.subrange(9, 13));
            let d0 = hex_seq_value(s@.subrange(0, 8));
            let d1 = hex_seq_value(s@.subrange(9, 13));
            let d2 = hex_seq_value(s@.subrange(14, 18));
            let d3 = hex_seq_value(s@.subrange(19, 23));
            let d4 = hex_seq_value(s@.subrange(24, 36));
            assert(hex_seq_value(s@.subrange(0, 8) + s@.subrange(9, 13)) == d0 * 0x1_0000 + d1);
            assert(hex_seq_value(s@.subrange(0, 8) + s@.subrange(9, 13) + s@.subrange(14, 18)) == (
            d0 * 0x1_0000 + d1) * 0x1_0000 + d2);
            assert(hex_seq_value(
                s@.subrange(0, 8) + s@.subrange(9, 13) + s@.subrange(14, 18) + s@.subrange(19, 23),
            ) == ((d0 * 0x1_0000 + d1) * 0x1_0000 + d2) * 0x1_0000 + d3);
            assert(uuid_string_value(s@) == (((d0 * 0x1_0000 + d1) * 0x1_0000 + d2) * 0x1_0000 + d3)
                * 0x1_0000_0000_0000 + d4);
            assert(uuid_string_value(s@) == d0 * 0x1_0000_0000_0000_0000_0000_0000 + d1
                * 0x1_0000_0000_0000_0000_0000 + d2 * 0x1_0000_0000_0000_0000 + d3
                * 0x1_0000_0000_0000 + d4);
        }
        let value: u128 = (g0 as u128) * 0x1_0000_0000_0000_0000_0000_0000 + (g1 as u128)
            * 0x1_0000_0000_0000_0000_0000 + (g2 as u128) * 0x1_0000_0000_0000_0000 + (g3 as u128)
            * 0x1_0000_0000_0000 + (g4 as u128);
        Some(Uuid { value })
    }

    /// A fresh random identifier.
    ///
    /// Relies on `uuid::Uuid::new_v4` for the randomness; nothing is assumed
    /// about which value comes back, so callers treat it as arbitrary.
    #[verifier::external_body]
    pub fn new_v4() -> Uuid {
        Uuid { value: uuid::Uuid::new_v4().as_u128() }
    }

    /// Writes the hyphenated lowercase form.
    pub fn to_hyphenated(&self) -> (r: String)
        ensures
            r@ == uuid_chars_of(self.value as nat),
            is_uuid_string(r@),
            uuid_string_value(r@) == self.value,
    {
        proof {
            lemma_pow16_values();
            lemma_uuid_chars_of_valid(self.value as nat);
        }
        let digits = hex_string_32(self.value);
        let ds = digits.as_str();
        proof {
            lemma_hex_seq_of_props(self.value as nat, 32);
        }
        let mut out = String::from_str(ds.substring_char(0, 8));
        out.append("-");
        out.append(ds.substring_char(8, 12));
        out.append("-");
        out.append(ds.substring_char(12, 16));
        out.append("-");
        out.append(ds.substring_char(16, 20));
        out.append("-");
        out.append(ds.substring_char(20, 32));
        proof {
            reveal_strlit("-");
            assert(out@ =~= uuid_chars_of(self.value as nat));
        }
        out
    }
}

/// The lowercase character of a hexadecimal digit.
pub open spec fn hex_char_of(d: nat) -> char {
    if d == 0 {
        '0'
    } else if d == 1 {
        '1'
    } else if d == 2 {
        '2'
    } else if d == 3 {
        '3'
    } else if d == 4 {
        '4'
    } else if d == 5 {
        '5'
    } else if d == 6 {
        '6'
    } else if d == 7 {
        '7'
    } else if d == 8 {
        '8'
    } else if d == 9 {
        '9'
    } else if d == 10 {
        'a'
    } else if d == 11 {
        'b'
    } else if d == 12 {
        'c'
    } else if d == 13 {
        'd'
    } else if d == 14 {
        'e'
    } else {
        'f'
    }
}

/// The last `k` lowercase hexadecimal digits of `v`, most significant first.
pub open spec fn hex_seq_of(v: nat, k: nat) -> Seq<char>
    decreases k,
{
    if k == 0 {
        Seq::empty()
    } else {
        hex_seq_of(v / 16, (k - 1) as nat).push(hex_char_of(v % 16))
    }
}

/// The hyphenated lowercase form of a 128-bit value.
pub open spec fn uuid_chars_of(v: nat) -> Seq<char> {
    let d = hex_seq_of(v, 32);
    d.subrange(0, 8) + seq!['-'] + d.subrange(8, 12) + seq!['-'] + d.subrange(12, 16) + seq!['-']
        + d.subrange(16, 20) + seq!['-'] + d.subrange(20, 32)
}

/// A digit below sixteen maps to a digit character carrying its value.
proof fn lemma_hex_char_of(d: nat)
    requires
        d < 16,
    ensures
        is_hex_digit(hex_char_of(d)),
        hex_digit_value(hex_char_of(d)) == d,
{
}

/// Shape of a digit rendering: `k` characters, each a hexadecimal digit.
proof fn lemma_hex_seq_of_props(v: nat, k: nat)
    ensures
        hex_seq_of(v, k).len() == k,
        forall|i: int| 0 <= i < k ==> is_hex_digit(#[trigger] hex_seq_of(v, k)[i]),
    decreases k,
{
    if k > 0 {
        lemma_hex_seq_of_props(v / 16, (k - 1) as nat);
        lemma_hex_char_of(v % 16);
    }
}

/// `pow16` is positive.
proof fn lemma_pow16_pos(k: nat)
    ensures
        pow16(k) >= 1,
    decreases k,
{
    if k > 0 {
        lemma_pow16_pos((k - 1) as nat);
    }
}

/// Reading back a digit rendering gives the value, reduced to `k` digits.
proof fn lemma_hex_seq_of_value(v: nat, k: nat)
    ensures
        hex_seq_value(hex_seq_of(v, k)) == v % pow16(k),
    decreases k,
{
    if k == 0 {
        assert(pow16(0) == 1);
        assert(v % 1 == 0) by (nonlinear_arith);
    } else {
        lemma_hex_seq_of_value(v / 16, (k - 1) as nat);
        lemma_hex_char_of(v % 16);
        lemma_pow16_pos((k - 1) as nat);
        let p = pow16((k - 1) as nat);
        assert(hex_seq_of(v, k).drop_last() =~= hex_seq_of(v / 16, (k - 1) as nat));
        assert(hex_seq_of(v, k).last() == hex_char_of(v % 16));
        assert(hex_seq_value(hex_seq_of(v, k)) == hex_seq_value(hex_seq_of(v / 16, (k - 1) as nat))
            * 16 + hex_digit_value(hex_char_of(v % 16)));
        vstd::arithmetic::div_mod::lemma_breakdown(v as int, 16, p as int);
        assert(v % (16 * p) == 16 * ((v / 16) % p) + v % 16);
        assert(pow16(k) == 16 * p);
        assert(((v / 16) as nat % p) * 16 == 16 * ((v as int / 16) % p as int));
    }
}

/// A value below `16^32` renders to a well-formed UUID string that reads back
/// to the same value.
pub proof fn lemma_uuid_chars_of_valid(v: nat)
    requires
        v < pow16(32),
    ensures
        is_uuid_string(uuid_chars_of(v)),
        uuid_string_value(uuid_chars_of(v)) == v,
{
    lemma_hex_seq_of_props(v, 32);
    lemma_hex_seq_of_value(v, 32);
    vstd::arithmetic::div_mod::lemma_small_mod(v, pow16(32));
    let d = hex_seq_of(v, 32);
    let u = uuid_chars_of(v);
    assert(u.len() == 36);
    assert forall|i: int| 0 <= i < 36 && !is_hyphen_position(i) implies is_hex_digit(
        #[trigger] u[i],
    ) by {
        if i < 8 {
            assert(u[i] == d[i]);
        } else if i < 13 {
            assert(u[i] == d[i - 1]);
        } else if i < 18 {
            assert(u[i] == d[i - 2]);
        } else if i < 23 {
            assert(u[i] == d[i - 3]);
        } else {
            assert(u[i] == d[i - 4]);
        }
    }
    assert(u[8] == '-' && u[13] == '-' && u[18] == '-' && u[23] == '-');
    assert(uuid_digits(u) =~= d);
}

/// Renders the 32 lowercase hexadecimal digits of `value`.
fn hex_string_32(value: u128) -> (r: String)
    ensures
        r@ == hex_seq_of(value as nat, 32),
{
    let mut out = String::new();
    let mut v: u128 = value;
    let mut j: usize = 0;
    while j < 32
        invariant
            j <= 32,
            out@.len() == j,
            hex_seq_of(value as nat, 32) =~= hex_seq_of(v as nat, (32 - j) as nat) + out@,
        decreases 32 - j,
    {
        let d: u8 = (v % 16) as u8;
        let digit = hex_char_string(d);
        let prefix = String::from_str(digit);
        let next = prefix.concat(out.as_str());
        proof {
            assert(hex_seq_of(v as nat, (32 - j) as nat) == hex_seq_of(
                (v as nat) / 16,
                (31 - j) as nat,
            ).push(hex_char_of((v as nat) % 16)));
            assert((v / 16) as nat == (v as nat) / 16);
            assert(hex_seq_of((v / 16) as nat, (31 - j) as nat).push(hex_char_of(d as nat))
                + out@ =~= hex_seq_of((v / 16) as nat, (31 - j) as nat) + (seq![
                hex_char_of(d as nat),
            ] + out@));
            assert(next@ == seq![hex_char_of(d as nat)] + out@);
        }
        out = next;
        v = v / 16;
        j = j + 1;
    }
    proof {
        assert(hex_seq_of(v as nat, 0) + out@ =~= out@);
    }
    out
}

/// The one-character string of a hexadecimal digit, lowercase.
fn hex_char_string(d: u8) -> (r: &'static str)
    requires
        d < 16,
    ensures
        r@ == seq![hex_char_of(d as nat)],
{
    proof {
        reveal_strlit("0");
        reveal_strlit("1");
        reveal_strlit("2");
        reveal_strlit("3");
        reveal_strlit("4");
        reveal_strlit("5");
        reveal_strlit("6");
        reveal_strlit("7");
        reveal_strlit("8");
        reveal_strlit("9");
        reveal_strlit("a");
        reveal_strlit("b");
        reveal_strlit("c");
        reveal_strlit("d");
        reveal_strlit("e");
        reveal_strlit("f");
    }
    let r: &'static str = match d {
        0 => "0",
        1 => "1",
        2 => "2",
        3 => "3",
        4 => "4",
        5 => "5",
        6 => "6",
        7 => "7",
        8 => "8",
        9 => "9",
        10 => "a",
        11 => "b",
        12 => "c",
        13 => "d",
        14 => "e",
        _ => "f",
    };
    proof {
        assert(r@ =~= seq![hex_char_of(d as nat)]);
    }
    r
}

/// Whether `v` holds `id`.
pub fn contains_id(v: &Vec<Uuid>, id: Uuid) -> (r: bool)
    ensures
        r == v@.contains(id),
{
    let mut i: usize = 0;
    while i < v.len()
        invariant
            i <= v@.len(),
            forall|j: int| 0 <= j < i ==> v@[j] != id,
        decreases v@.len() - i,
    {
        if v[i] == id {
            return true;
        }
        i = i + 1;
    }
    false
}

/// `s` with every repeated id dropped: first occurrences, in order.
pub open spec fn dedup_ids(s: Seq<Uuid>) -> Seq<Uuid>
    decreases s.len(),
{
    if s.len() == 0 {
        Seq::empty()
    } else {
        let d = dedup_ids(s.drop_last());
        if d.contains(s.last()) {
            d
        } else {
            d.push(s.last())
        }
    }
}

/// Removing repeats gives a duplicate-free sequence over the same ids.
pub proof fn lemma_dedup_ids_props(s: Seq<Uuid>)
    ensures
        dedup_ids(s).no_duplicates(),
        forall|x: Uuid| dedup_ids(s).contains(x) <==> s.contains(x),
    decreases s.len(),
{
    if s.len() > 0 {
        lemma_dedup_ids_props(s.drop_last());
        let d = dedup_ids(s.drop_last());
        assert(forall|i: int| 0 <= i < s.len() - 1 ==> s.drop_last()[i] == s[i]);
        assert(s.last() == s[s.len() - 1]);
        assert forall|x: Uuid| dedup_ids(s).contains(x) <==> s.contains(x) by {
            if dedup_ids(s).contains(x) {
                if d.contains(x) {
                    assert(s.drop_last().contains(x));
                    let i = choose|i: int|
                        0 <= i < s.drop_last().len() && s.drop_last()[i] == x;
                    assert(s[i] == x);
                } else {
                    assert(x == s.last());
                }
            }
            if s.contains(x) {
                let i = choose|i: int| 0 <= i < s.len() && s[i] == x;
                if i < s.len() - 1 {
                    assert(s.drop_last()[i] == x);
                    assert(s.drop_last().contains(x));
                    assert(d.contains(x));
                    if !d.contains(s.last()) {
                        assert(dedup_ids(s) == d.push(s.last()));
                        assert(d.push(s.last()).contains(x)) by {
                            let j = choose|j: int| 0 <= j < d.len() && d[j] == x;
                            assert(d.push(s.last())[j] == x);
                        }
                    }
                } else {
                    if d.contains(s.last()) {
                    } else {
                        assert(dedup_ids(s)[d.len() as int] == s.last());
                    }
                }
            }
        }
    }
}

/// Removes repeated ids, keeping first occurrences in order.
pub fn dedup_ids_exec(v: &Vec<Uuid>) -> (r: Vec<Uuid>)
    ensures
        r@ == dedup_ids(v@),
{
    let mut r: Vec<Uuid> = Vec::new();
    let mut i: usize = 0;
    proof {
        assert(v@.subrange(0, 0) =~= Seq::<Uuid>::empty());
    }
    while i < v.len()
        invariant
            i <= v@.len(),
            r@ == dedup_ids(v@.subrange(0, i as int)),
        decreases v@.len() - i,
    {
        let id = v[i];
        proof {
            assert(v@.subrange(0, i + 1).drop_last() =~= v@.subrange(0, i as int));
            assert(v@.subrange(0, i + 1).last() == v@[i as int]);
        }
        if !contains_id(&r, id) {
            r.push(id);
        }
        i = i + 1;
    }
    proof {
        assert(v@.subrange(0, v@.len() as int) =~= v@);
    }
    r
}

/// Parsing reads back exactly what formatting wrote.
pub proof fn lemma_uuid_roundtrip(u: Uuid)
    ensures
        is_uuid_string(uuid_chars_of(u.value as nat)),
        uuid_string_value(uuid_chars_of(u.value as nat)) == u.value,
{
    lemma_pow16_values();
    lemma_uuid_chars_of_valid(u.value as nat);
}

} // verus!
