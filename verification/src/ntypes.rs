//! Signed 32-bit numbers with Devanagari digit text: parsing, printing, and
//! the two's-complement arithmetic the evaluator performs on them.

use vstd::prelude::*;

verus! {

broadcast use vstd::string::next_postcondition, vstd::string::axiom_spec_iter;

use vstd::std_specs::iter::IteratorSpec;
use vstd::string::StringExecFns;

/// A number value: a signed 32-bit integer.
#[derive(Debug, Clone, Copy, PartialEq, Eq)]
pub struct Sankhya(pub i32);

impl View for Sankhya {
    type V = int;

    open spec fn view(&self) -> int {
        self.0 as int
    }
}

/// The integer value denoted by a Devanagari digit character, or 10 for
/// any other character (10 marks "not a digit").
pub open spec fn dev_digit_val(c: char) -> int {
    if c == '०' {
        0
    } else if c == '१' {
        1
    } else if c == '२' {
        2
    } else if c == '३' {
        3
    } else if c == '४' {
        4
    } else if c == '५' {
        5
    } else if c == '६' {
        6
    } else if c == '७' {
        7
    } else if c == '८' {
        8
    } else if c == '९' {
        9
    } else {
        10
    }
}

pub open spec fn is_dev_digit(c: char) -> bool {
    dev_digit_val(c) < 10
}

/// The Devanagari digit character for a value in 0..=9.
pub open spec fn dev_digit_char(d: int) -> char {
    if d == 0 {
        '०'
    } else if d == 1 {
        '१'
    } else if d == 2 {
        '२'
    } else if d == 3 {
        '३'
    } else if d == 4 {
        '४'
    } else if d == 5 {
        '५'
    } else if d == 6 {
        '६'
    } else if d == 7 {
        '७'
    } else if d == 8 {
        '८'
    } else {
        '९'
    }
}

pub open spec fn all_dev_digits(s: Seq<char>) -> bool {
    forall|i: int| 0 <= i < s.len() ==> is_dev_digit(#[trigger] s[i])
}

/// The value of a sequence of Devanagari digits, most significant first.
pub open spec fn digits_val(s: Seq<char>) -> int
    decreases s.len(),
{
    if s.len() == 0 {
        0
    } else {
        digits_val(s.drop_last()) * 10 + dev_digit_val(s.last())
    }
}

/// The number denoted by a piece of text: an optional ASCII sign followed by
/// at least one Devanagari digit, with the value within the 32-bit range.
pub open spec fn sankhya_of_text(s: Seq<char>) -> Option<int> {
    let signed = s.len() > 0 && (s[0] == '+' || s[0] == '-');
    let mag = if signed {
        s.drop_first()
    } else {
        s
    };
    let sign: int = if s.len() > 0 && s[0] == '-' {
        -1
    } else {
        1
    };
    if mag.len() > 0 && all_dev_digits(mag) && i32::MIN <= sign * digits_val(mag) <= i32::MAX {
        Some(sign * digits_val(mag))
    } else {
        None
    }
}

/// The Devanagari digit string of a non-negative value, no sign.
pub open spec fn dev_digits_of_nat(n: int) -> Seq<char>
    decreases n,
{
    if n < 10 {
        seq![dev_digit_char(n)]
    } else {
        dev_digits_of_nat(n / 10).push(dev_digit_char(n % 10))
    }
}

/// The display text of a number: Devanagari digits, an ASCII '-' prefix when
/// negative.
pub open spec fn dev_text_of(n: int) -> Seq<char> {
    if n < 0 {
        seq!['-'] + dev_digits_of_nat(-n)
    } else {
        dev_digits_of_nat(n)
    }
}

/// A value reduced into the signed 32-bit range, two's-complement style.
pub open spec fn wrap32(x: int) -> int {
    vstd::wrapping::i32_specs::signed_crop(x) as int
}

/// The truncated (round toward zero) quotient, as the machine division
/// instruction computes it; the divisor must not be zero.
pub open spec fn tquot(x: int, y: int) -> int {
    let q = abs_int(x) / abs_int(y);
    if (x < 0) != (y < 0) {
        -q
    } else {
        q
    }
}

pub open spec fn abs_int(x: int) -> int {
    if x < 0 {
        -x
    } else {
        x
    }
}

proof fn lemma_mod_shift(x: int)
    requires
        -0x1_0000_0000 <= x < 0,
    ensures
        x % 0x1_0000_0000 == x + 0x1_0000_0000,
{
    assert(x % 0x1_0000_0000 == x + 0x1_0000_0000) by (nonlinear_arith)
        requires
            -0x1_0000_0000 <= x < 0,
    ;
}

proof fn lemma_mod_id(x: int)
    requires
        0 <= x < 0x1_0000_0000,
    ensures
        x % 0x1_0000_0000 == x,
{
    assert(x % 0x1_0000_0000 == x) by (nonlinear_arith)
        requires
            0 <= x < 0x1_0000_0000,
    ;
}

/// Reduction into the 32-bit range leaves an in-range value as it is.
pub proof fn lemma_wrap_id(x: int)
    requires
        i32::MIN <= x <= i32::MAX,
    ensures
        wrap32(x) == x,
{
    if x >= 0 {
        lemma_mod_id(x);
    } else {
        lemma_mod_shift(x);
    }
}

/// Two's-complement wrapping addition agrees with reduction of the exact sum.
proof fn lemma_wrapping_add_crop(a: i32, b: i32)
    ensures
        vstd::wrapping::i32_specs::wrapping_add(a, b) as int == wrap32(a as int + b as int),
{
    let s = a as int + b as int;
    if s > i32::MAX {
        lemma_mod_id(s);
    } else if s < i32::MIN {
        lemma_mod_shift(s);
    } else if s >= 0 {
        lemma_mod_id(s);
    } else {
        lemma_mod_shift(s);
    }
}

/// Two's-complement wrapping subtraction agrees with reduction of the exact
/// difference.
proof fn lemma_wrapping_sub_crop(a: i32, b: i32)
    ensures
        vstd::wrapping::i32_specs::wrapping_sub(a, b) as int == wrap32(a as int - b as int),
{
    let s = a as int - b as int;
    if s > i32::MAX {
        lemma_mod_id(s);
    } else if s < i32::MIN {
        lemma_mod_shift(s);
    } else if s >= 0 {
        lemma_mod_id(s);
    } else {
        lemma_mod_shift(s);
    }
}

/// The characters of a string, in order.
pub fn str_chars(s: &str) -> (r: Vec<char>)
    ensures
        r@ == s@,
{
    let mut it = s.chars();
    let mut out: Vec<char> = Vec::new();
    proof {
        assert(out@ + it.remaining() =~= s@);
    }
    loop
        invariant_except_break
            it.obeys_prophetic_iter_laws(),
            it.decrease() is Some,
            out@ + it.remaining() == s@,
        ensures
            out@ == s@,
        decreases it.decrease()->0,
    {
        match it.next() {
            Some(c) => {
                out.push(c);
                proof {
                    assert(out@ + it.remaining() =~= s@);
                }
            },
            None => {
                proof {
                    assert(out@ + it.remaining() =~= out@);
                }
                break ;
            },
        }
    }
    out
}

/// The digit value of a character, 10 when it is not a Devanagari digit.
pub fn dev_digit_of(c: char) -> (d: u32)
    ensures
        d == dev_digit_val(c),
{
    match c {
        '०' => 0,
        '१' => 1,
        '२' => 2,
        '३' => 3,
        '४' => 4,
        '५' => 5,
        '६' => 6,
        '७' => 7,
        '८' => 8,
        '९' => 9,
        _ => 10,
    }
}

/// A digit sequence that consists of Devanagari digits has a non-negative
/// value.
proof fn lemma_digits_val_nonneg(s: Seq<char>)
    requires
        all_dev_digits(s),
    ensures
        digits_val(s) >= 0,
    decreases s.len(),
{
    if s.len() > 0 {
        assert(all_dev_digits(s.drop_last()));
        lemma_digits_val_nonneg(s.drop_last());
    }
}

/// Dropping trailing digits never increases the value.
proof fn lemma_digits_val_prefix(s: Seq<char>, j: int)
    requires
        all_dev_digits(s),
        0 <= j <= s.len(),
    ensures
        digits_val(s) >= digits_val(s.take(j)),
    decreases s.len(),
{
    if j == s.len() {
        assert(s.take(j) =~= s);
    } else {
        let d = s.drop_last();
        assert(all_dev_digits(d));
        assert(d.take(j) =~= s.take(j));
        lemma_digits_val_prefix(d, j);
        lemma_digits_val_nonneg(d);
    }
}

/// The Devanagari digit character of a value in 0..=9, as a string slice.
fn dev_digit_str(d: u32) -> (r: &'static str)
    requires
        d < 10,
    ensures
        r@ == seq![dev_digit_char(d as int)],
{
    proof {
        reveal_strlit("०");
        reveal_strlit("१");
        reveal_strlit("२");
        reveal_strlit("३");
        reveal_strlit("४");
        reveal_strlit("५");
        reveal_strlit("६");
        reveal_strlit("७");
        reveal_strlit("८");
        reveal_strlit("९");
    }
    let r: &'static str = match d {
        0 => "०",
        1 => "१",
        2 => "२",
        3 => "३",
        4 => "४",
        5 => "५",
        6 => "६",
        7 => "७",
        8 => "८",
        _ => "९",
    };
    proof {
        assert(r@ =~= seq![dev_digit_char(d as int)]);
    }
    r
}

/// The digit string of a non-negative number.
fn dev_nat_string(n: u32) -> (r: String)
    ensures
        r@ == dev_digits_of_nat(n as int),
    decreases n,
{
    if n < 10 {
        dev_digit_str(n).to_owned()
    } else {
        let q = dev_nat_string(n / 10);
        let r = q.concat(dev_digit_str(n % 10));
        proof {
            assert(r@ =~= dev_digits_of_nat(n as int));
        }
        r
    }
}

impl Sankhya {
    /// Reads a number from its Devanagari text: an optional ASCII sign, then
    /// at least one Devanagari digit, the whole within the 32-bit range.
    pub fn from_chars(cs: &[char]) -> (r: Option<Sankhya>)
        ensures
            sankhya_of_text(cs@) matches Some(v) ==> r matches Some(s) && s@ == v,
            sankhya_of_text(cs@) is None ==> r is None,
    {
        let n = cs.len();
        let signed = n > 0 && (cs[0] == '+' || cs[0] == '-');
        let neg = n > 0 && cs[0] == '-';
        let start: usize = if signed {
            1
        } else {
            0
        };
        let ghost mag = if signed {
            cs@.drop_first()
        } else {
            cs@
        };
        if start >= n {
            return None;
        }
        let mut acc: u64 = 0;
        let mut i = start;
        while i < n
            invariant
                start <= i <= n,
                n == cs@.len(),
                signed == (cs@.len() > 0 && (cs@[0] == '+' || cs@[0] == '-')),
                neg == (cs@.len() > 0 && cs@[0] == '-'),
                start == if signed {
                    1int
                } else {
                    0int
                },
                mag == if signed {
                    cs@.drop_first()
                } else {
                    cs@
                },
                mag.len() == n - start,
                acc == digits_val(mag.take(i - start)),
                all_dev_digits(mag.take(i - start)),
                acc <= 0x8000_0000,
            decreases n - i,
        {
            let ghost pre = mag.take(i - start);
            let d = dev_digit_of(cs[i]);
            assert(mag[i - start] == cs@[i as int]);
            if d >= 10 {
                proof {
                    assert(!is_dev_digit(mag[i - start]));
                }
                return None;
            }
            let newacc = acc * 10 + d as u64;
            proof {
                assert(mag.take(i + 1 - start).drop_last() =~= pre);
                assert(mag.take(i + 1 - start).last() == mag[i - start]);
                assert(digits_val(mag.take(i + 1 - start)) == newacc);
                assert(forall|j: int|
                    0 <= j < i + 1 - start ==> is_dev_digit(#[trigger] mag.take(i + 1 - start)[j]));
            }
            if newacc > 0x8000_0000 {
                proof {
                    if all_dev_digits(mag) {
                        lemma_digits_val_prefix(mag, i + 1 - start);
                        assert(digits_val(mag) >= newacc);
                        assert(digits_val(mag) > 0x8000_0000);
                        assert(1 * digits_val(mag) > i32::MAX);
                        assert(-1 * digits_val(mag) < i32::MIN);
                        assert(sankhya_of_text(cs@) is None);
                    } else {
                        assert(sankhya_of_text(cs@) is None);
                    }
                }
                return None;
            }
            acc = newacc;
            i = i + 1;
        }
        proof {
            assert(mag.take(i - start) =~= mag);
        }
        if neg {
            if acc >= 0x8000_0000 {
                assert(-1 * digits_val(mag) == i32::MIN);
                Some(Sankhya(i32::MIN))
            } else {
                let m = acc as i32;
                assert(-1 * digits_val(mag) == -m);
                Some(Sankhya(-m))
            }
        } else {
            if acc > 0x7fff_ffff {
                assert(1 * digits_val(mag) > i32::MAX);
                None
            } else {
                assert(1 * digits_val(mag) == acc);
                Some(Sankhya(acc as i32))
            }
        }
    }

    /// Reads a number from a string slice.
    pub fn from_text(s: &str) -> (r: Option<Sankhya>)
        ensures
            sankhya_of_text(s@) matches Some(v) ==> r matches Some(k) && k@ == v,
            sankhya_of_text(s@) is None ==> r is None,
    {
        let cs = str_chars(s);
        Sankhya::from_chars(cs.as_slice())
    }

    /// Writes the number as Devanagari digit text, '-' first when negative.
    pub fn to_text(&self) -> (r: String)
        ensures
            r@ == dev_text_of(self@),
    {
        if self.0 >= 0 {
            dev_nat_string(self.0 as u32)
        } else {
            let mag = (-(self.0 as i64)) as u32;
            let sign = "-".to_owned();
            proof {
                reveal_strlit("-");
                assert(sign@ =~= seq!['-']);
            }
            sign.concat(dev_nat_string(mag).as_str())
        }
    }

    /// Wrapping sum.
    pub fn plus(&self, other: &Sankhya) -> (r: Sankhya)
        ensures
            r@ == wrap32(self@ + other@),
    {
        proof {
            lemma_wrapping_add_crop(self.0, other.0);
        }
        Sankhya(self.0.wrapping_add(other.0))
    }

    /// Wrapping difference.
    pub fn minus(&self, other: &Sankhya) -> (r: Sankhya)
        ensures
            r@ == wrap32(self@ - other@),
    {
        proof {
            lemma_wrapping_sub_crop(self.0, other.0);
        }
        Sankhya(self.0.wrapping_sub(other.0))
    }

    /// Wrapping product.
    pub fn times(&self, other: &Sankhya) -> (r: Sankhya)
        ensures
            r@ == wrap32(self@ * other@),
    {
        Sankhya(self.0.wrapping_mul(other.0))
    }

    /// Wrapping truncated quotient; the divisor must not be zero.
    pub fn divided_by(&self, other: &Sankhya) -> (r: Sankhya)
        requires
            other@ != 0,
        ensures
            r@ == wrap32(tquot(self@, other@)),
    {
        proof {
            let x = self@;
            let y = other@;
            let ax = abs_int(x);
            let ay = abs_int(y);
            let q = ax / ay;
            vstd::arithmetic::div_mod::lemma_div_pos_is_pos(ax, ay);
            vstd::arithmetic::div_mod::lemma_div_nonincreasing(ax, ay);
            vstd::arithmetic::div_mod::lemma_fundamental_div_mod(ax, ay);
            assert(ay * q <= ax);
            if q >= 0x8000_0000 {
                assert(ay * q >= ay * 0x8000_0000 == 0x8000_0000 * ay) by (nonlinear_arith)
                    requires
                        q >= 0x8000_0000,
                        ay >= 1,
                ;
                assert(ay == 1);
                assert(q == ax == 0x8000_0000);
                assert(x == i32::MIN);
            }
            assert(x == 0 ==> q == 0);
        }
        match self.0.checked_div(other.0) {
            Some(q) => {
                proof {
                    assert(q == tquot(self@, other@));
                    lemma_wrap_id(q as int);
                }
                Sankhya(q)
            },
            None => {
                // only i32::MIN / -1 overflows; it wraps back to i32::MIN
                proof {
                    assert(self@ == i32::MIN && other@ == -1);
                    assert(tquot(self@, other@) == 0x8000_0000);
                    lemma_mod_id(0x8000_0000);
                }
                Sankhya(i32::MIN)
            },
        }
    }
}

} // verus!
