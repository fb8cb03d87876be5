//! The integer side of the "brain estimate" grading: the per-user counts it reads,
//! the greatest common divisor it uses, and the one rule of it that the user's
//! name alone decides.

use vstd::prelude::*;
use crate::text::{push_str, str_to_chars};

verus! {

/// A user's message statistics.
pub struct UserInfo {
    pub name: String,
    pub message_count: i64,
    pub word_count: i64,
}

/// The grade levels, from lowest to highest.
pub open spec fn grade_levels_spec() -> Seq<Seq<char>> {
    seq![
        "Kindegarten"@, "1st Grade"@, "2nd Grade"@, "3rd Grade"@, "4th Grade"@, "5th Grade"@,
        "6th Grade"@, "7th Grade"@, "8th Grade"@, "9th Grade"@, "10th Grade"@, "11th Grade"@,
        "12th Grade"@, "College"@, "Graduate"@, "Post-Graduate"@, "Doctorate"@, "Brilliant"@,
    ]
}

/// The grade levels (see [`grade_levels_spec`]).
pub fn grade_levels() -> (r: Vec<&'static str>)
    ensures
        r@.map_values(|g: &str| g@) == grade_levels_spec(),
{
    let mut v: Vec<&'static str> = Vec::new();
    v.push("Kindegarten");
    v.push("1st Grade");
    v.push("2nd Grade");
    v.push("3rd Grade");
    v.push("4th Grade");
    v.push("5th Grade");
    v.push("6th Grade");
    v.push("7th Grade");
    v.push("8th Grade");
    v.push("9th Grade");
    v.push("10th Grade");
    v.push("11th Grade");
    v.push("12th Grade");
    v.push("College");
    v.push("Graduate");
    v.push("Post-Graduate");
    v.push("Doctorate");
    v.push("Brilliant");
    assert(v@.map_values(|g: &str| g@) =~= grade_levels_spec());
    v
}

/// The greatest common divisor of `a` and `b` (Euclid's algorithm; `gcd(a, 0)` is
/// `a`).
pub open spec fn gcd_spec(a: nat, b: nat) -> nat
    decreases b,
{
    if b == 0 { a } else { gcd_spec(b, a % b) }
}

/// The absolute value.
pub open spec fn abs(x: int) -> nat {
    if x < 0 { (-x) as nat } else { x as nat }
}

/// Python's `math.gcd`: the greatest common divisor of the absolute values.
pub fn gcd(a: i64, b: i64) -> (r: i64)
    requires
        a != i64::MIN,
        b != i64::MIN,
    ensures
        r == gcd_spec(abs(a as int), abs(b as int)),
{
    let mut x: i64 = if a < 0 { -a } else { a };
    let mut y: i64 = if b < 0 { -b } else { b };
    while y != 0
        invariant
            0 <= x,
            0 <= y,
            gcd_spec(x as nat, y as nat) == gcd_spec(abs(a as int), abs(b as int)),
        decreases y,
    {
        let t = y;
        y = x % y;
        x = t;
    }
    x
}

/// `gcd(a, b)` divides both `a` and `b`.
pub proof fn law_gcd_divides(a: nat, b: nat)
    ensures
        gcd_spec(a, b) > 0 ==> a % gcd_spec(a, b) == 0 && b % gcd_spec(a, b) == 0,
    decreases b,
{
    if b > 0 {
        law_gcd_divides(b, a % b);
        let g = gcd_spec(b, a % b);
        if g > 0 {
            vstd::arithmetic::div_mod::lemma_fundamental_div_mod(a as int, b as int);
            let q = a / b;
            let r = a % b;
            let qb = b / g;
            let qr = r / g;
            vstd::arithmetic::div_mod::lemma_fundamental_div_mod(b as int, g as int);
            vstd::arithmetic::div_mod::lemma_fundamental_div_mod(r as int, g as int);
            assert(a == (q * qb + qr) * g) by (nonlinear_arith)
                requires a == b * q + r, b == g * qb, r == g * qr;
            vstd::arithmetic::div_mod::lemma_mod_multiples_basic((q * qb + qr) as int, g as int);
        }
    }
}

/// The sum of the code points of `s`.
pub open spec fn code_point_sum(s: Seq<char>) -> int
    decreases s.len(),
{
    if s.len() == 0 { 0 } else { code_point_sum(s.drop_last()) + (s.last() as u32) as int }
}

/// Whether the name alone decides the grade: the name score is the code-point sum
/// times 3 when the sum times 16 is exactly 6944, else the sum over 16, and a name
/// score over 1301 makes the grade `Brilliant` whatever the other scores are.
pub open spec fn name_decides(sum: int) -> bool {
    sum * 16 == 6944 || sum > 1301 * 16
}

/// The grade that the user's name decides on its own (`Brilliant`), or none when
/// the other scores decide.
pub fn nomenclature_grade(name: &str) -> (r: Option<String>)
    ensures
        r is Some <==> name_decides(code_point_sum(name@)),
        r is Some ==> r->0@ == grade_levels_spec()[17],
{
    let v = str_to_chars(name);
    let mut sum: u128 = 0;
    let mut i: usize = 0;
    while i < v.len()
        invariant
            i <= v.len(),
            v@ == name@,
            sum == code_point_sum(v@.take(i as int)),
            sum <= i * 0x11_0000,
        decreases v.len() - i,
    {
        assert(v@.take(i as int + 1).drop_last() == v@.take(i as int));
        let ch = v[i];
        let c = ch as u32;
        proof { vstd::utf8::char_is_scalar(ch); }
        sum = sum + c as u128;
        i += 1;
    }
    assert(v@.take(v.len() as int) == v@);
    if sum * 16 == 6944 || sum > 1301 * 16 {
        let mut s = String::new();
        push_str(&mut s, "Brilliant");
        Some(s)
    } else {
        None
    }
}

} // verus!
