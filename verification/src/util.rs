//! Frame rates as ratios, performance-counter conversions, file versions and
//! module file hashes.
use vstd::prelude::*;
use gcd::Gcd;

use crate::text::{
    chars_of, decimal, find, lemma_find_absent, lemma_find_after, lemma_parse_decimal, parse_u32, parse_u32_at,
    push_decimal, split_once,
};
use vstd::string::StringExecFns;

verus! {

/// The greatest common divisor, by Euclid's recursion; `gcd(a, 0) == a`.
pub open spec fn gcd(a: nat, b: nat) -> nat
    decreases b,
{
    if b == 0 {
        a
    } else {
        gcd(b, a % b)
    }
}

/// `gcd::Gcd::gcd_binary` on `u32`. The crate documents it as the greatest
/// common divisor of the two numbers, with `gcd(x, 0) == x` and
/// `gcd(0, 0) == 0`; the contract states exactly that.
#[verifier::external_body]
fn gcd_binary(a: u32, b: u32) -> (r: u32)
    ensures
        r == gcd(a as nat, b as nat),
{
    a.gcd_binary(b)
}

/// The gcd divides both numbers, and is positive unless both are zero.
pub proof fn lemma_gcd_divides(a: nat, b: nat)
    ensures
        (a > 0 || b > 0) ==> gcd(a, b) > 0,
        gcd(a, b) > 0 ==> a % gcd(a, b) == 0 && b % gcd(a, b) == 0,
    decreases b,
{
    if b > 0 {
        lemma_gcd_divides(b, a % b);
        let g = gcd(a, b);
        if g > 0 {
            let q = a / b;
            let r = a % b;
            vstd::arithmetic::div_mod::lemma_fundamental_div_mod(a as int, b as int);
            vstd::arithmetic::div_mod::lemma_fundamental_div_mod(b as int, g as int);
            vstd::arithmetic::div_mod::lemma_fundamental_div_mod(r as int, g as int);
            let kb = b / g;
            let kr = r / g;
            assert(a == g * (kb * q + kr)) by (nonlinear_arith)
                requires
                    a == b * q + r,
                    b == g * kb,
                    r == g * kr,
            ;
            vstd::arithmetic::div_mod::lemma_mod_multiples_basic((kb * q + kr) as int, g as int);
            assert(g * (kb * q + kr) == (kb * q + kr) * g) by (nonlinear_arith);
        }
    }
}

/// Scaling both numbers scales their gcd.
pub proof fn lemma_gcd_scale(k: nat, a: nat, b: nat)
    requires
        k > 0,
    ensures
        gcd(k * a, k * b) == k * gcd(a, b),
    decreases b,
{
    if b > 0 {
        let q = a / b;
        let r = a % b;
        vstd::arithmetic::div_mod::lemma_fundamental_div_mod(a as int, b as int);
        assert(k * a == q * (k * b) + k * r) by (nonlinear_arith)
            requires
                a == b * q + r,
        ;
        assert(0 <= k * r < k * b) by (nonlinear_arith)
            requires
                0 <= r < b,
                k > 0,
        ;
        vstd::arithmetic::div_mod::lemma_fundamental_div_mod_converse_mod(
            (k * a) as int,
            (k * b) as int,
            q as int,
            (k * r) as int,
        );
        assert(k * b > 0) by (nonlinear_arith)
            requires
                k > 0,
                b > 0,
        ;
        lemma_gcd_scale(k, b, r);
    } else {
        assert(k * b == 0) by (nonlinear_arith)
            requires
                b == 0,
        ;
    }
}

/// A rate as a fraction `num / den`; `den` is never zero.
#[derive(Clone, Copy, PartialEq, Eq, Structural, Debug)]
pub struct Ratio {
    pub num: u32,
    pub den: u32,
}

/// `r` in lowest terms: both parts divided by their gcd.
pub open spec fn reduce(r: Ratio) -> Ratio {
    let g = gcd(r.num as nat, r.den as nat);
    Ratio { num: (r.num as nat / g) as u32, den: (r.den as nat / g) as u32 }
}

/// What `Ratio::from_str` gives: `n/d` with `d` not zero, reduced, or a
/// whole number `n`.
pub open spec fn parse_ratio(s: Seq<char>) -> Option<Ratio> {
    match split_once(s, '/') {
        Some((n, d)) => match (parse_u32(n), parse_u32(d)) {
            (Some(a), Some(b)) => if b != 0 {
                Some(reduce(Ratio { num: a, den: b }))
            } else {
                None
            },
            _ => None,
        },
        None => match parse_u32(s) {
            Some(a) => Some(Ratio { num: a, den: 1 }),
            None => None,
        },
    }
}

/// How a ratio is written: the numerator alone when it is zero or the
/// denominator is one, else `num/den`.
pub open spec fn ratio_text(r: Ratio) -> Seq<char> {
    if r.num == 0 || r.den == 1 {
        decimal(r.num as nat)
    } else {
        decimal(r.num as nat) + seq!['/'] + decimal(r.den as nat)
    }
}

/// How a file version is written: its four parts, separated by dots.
pub open spec fn version_text(v: FileVersion) -> Seq<char> {
    decimal(v.ms as nat / 0x10000) + seq!['.'] + decimal(v.ms as nat % 0x10000) + seq!['.'] + decimal(
        v.ls as nat / 0x10000,
    ) + seq!['.'] + decimal(v.ls as nat % 0x10000)
}

/// The game's own update rate: 25 per second.
pub fn game_fps() -> (r: Ratio)
    ensures
        r == (Ratio { num: 25, den: 1 }),
{
    Ratio { num: 25, den: 1 }
}

impl Ratio {
    pub fn new(num: u32, den: u32) -> (r: Self)
        requires
            den != 0,
        ensures
            r == (Ratio { num, den }),
    {
        Self { num, den }
    }

    /// The same ratio in lowest terms.
    pub fn reduced(self) -> (r: Self)
        requires
            self.den != 0,
        ensures
            r == reduce(self),
            r.den != 0,
    {
        let d = gcd_binary(self.num, self.den);
        proof {
            lemma_gcd_divides(self.num as nat, self.den as nat);
            assert(self.den / d >= 1) by (nonlinear_arith)
                requires
                    d > 0,
                    self.den % d == 0,
                    self.den > 0,
            ;
        }
        let den = self.den / d;
        Self { num: self.num / d, den }
    }

    /// Parses `n/d` (then reduces it) or a whole number `n`, each number as
    /// `u32::from_str` reads it; `d` must not be zero.
    pub fn parse(s: &str) -> (r: Result<Self, ()>)
        ensures
            r == match parse_ratio(s@) {
                Some(x) => Ok::<Ratio, ()>(x),
                None => Err(()),
            },
            r matches Ok(x) ==> x.den != 0,
    {
        let cs = chars_of(s);
        assert(cs@.subrange(0, cs@.len() as int) =~= cs@);
        Self::parse_chars(&cs, 0, cs.len())
    }

    /// The ratio as it is shown to the user; see `ratio_text`.
    pub fn to_string(&self) -> (r: String)
        ensures
            r@ == ratio_text(*self),
    {
        let mut out = String::new();
        push_decimal(&mut out, self.num);
        if !(self.num == 0 || self.den == 1) {
            proof {
                reveal_strlit("/");
            }
            out.append("/");
            push_decimal(&mut out, self.den);
        }
        assert(out@ =~= ratio_text(*self));
        out
    }

    /// `parse` on `s[from..to]`.
    pub fn parse_chars(s: &Vec<char>, from: usize, to: usize) -> (r: Result<Self, ()>)
        requires
            from <= to <= s@.len(),
        ensures
            r == match parse_ratio(s@.subrange(from as int, to as int)) {
                Some(x) => Ok::<Ratio, ()>(x),
                None => Err(()),
            },
            r matches Ok(x) ==> x.den != 0,
    {
        let ghost sub = s@.subrange(from as int, to as int);
        match find(s, from, to, '/') {
            Some(k) => {
                assert(sub.take(k - from) =~= s@.subrange(from as int, k as int));
                assert(sub.skip(k - from + 1) =~= s@.subrange(k + 1, to as int));
                let num = match parse_u32_at(s, from, k) {
                    Some(n) => n,
                    None => return Err(()),
                };
                let den = match parse_u32_at(s, k + 1, to) {
                    Some(d) => d,
                    None => return Err(()),
                };
                if den == 0 {
                    return Err(());
                }
                Ok(Ratio { num, den }.reduced())
            },
            None => match parse_u32_at(s, from, to) {
                Some(n) => Ok(Ratio { num: n, den: 1 }),
                None => Err(()),
            },
        }
    }
}

impl core::str::FromStr for Ratio {
    type Err = ();

    /// Parses as `Ratio::parse` does.
    fn from_str(s: &str) -> (r: Result<Self, Self::Err>)
        ensures
            r == match parse_ratio(s@) {
                Some(x) => Ok::<Ratio, ()>(x),
                None => Err(()),
            },
    {
        Ratio::parse(s)
    }
}

/// Parsing a printed ratio gives it back in lowest terms:
/// `parse_ratio(ratio_text(r)) == Some(reduce(r))`.
pub proof fn law_parse_printed_ratio(r: Ratio)
    requires
        r.den != 0,
    ensures
        parse_ratio(ratio_text(r)) == Some(reduce(r)),
{
    lemma_parse_decimal(r.num);
    lemma_parse_decimal(r.den);
    let a = decimal(r.num as nat);
    let b = decimal(r.den as nat);
    if r.num == 0 || r.den == 1 {
        lemma_find_absent(a, '/');
        if r.num == 0 {
            vstd::arithmetic::div_mod::lemma_small_mod(0, r.den as nat);
            assert(gcd(0, r.den as nat) == gcd(r.den as nat, 0));
            assert(gcd(r.den as nat, 0) == r.den);
            assert(gcd(0, r.den as nat) == r.den);
            vstd::arithmetic::div_mod::lemma_div_basics(r.den as int);
            assert(reduce(r).num == 0);
            assert(reduce(r).den == 1);
        } else {
            vstd::arithmetic::div_mod::lemma_div_basics(r.num as int);
            vstd::arithmetic::div_mod::lemma_fundamental_div_mod(r.num as int, 1);
            assert(gcd(r.num as nat, 1) == gcd(1, 0));
            assert(gcd(1, 0) == 1);
            vstd::arithmetic::div_mod::lemma_div_basics(1);
            assert((r.num as nat) / 1 == r.num);
            assert(reduce(r).num == r.num);
            assert(reduce(r).den == 1);
        }
        assert(reduce(r) == Ratio { num: r.num, den: 1 });
    } else {
        let t = a + seq!['/'] + b;
        lemma_find_after(a, '/', b);
        assert(t.take(a.len() as int) =~= a);
        assert(t.skip(a.len() as int + 1) =~= b);
    }
}

/// Reducing keeps the value of a ratio: `a/b == (a/g)/(b/g)`.
pub proof fn law_reduce_keeps_value(r: Ratio)
    requires
        r.den != 0,
    ensures
        r.num * reduce(r).den == reduce(r).num * r.den,
        reduce(r).den != 0,
{
    let g = gcd(r.num as nat, r.den as nat);
    lemma_gcd_divides(r.num as nat, r.den as nat);
    vstd::arithmetic::div_mod::lemma_fundamental_div_mod(r.num as int, g as int);
    vstd::arithmetic::div_mod::lemma_fundamental_div_mod(r.den as int, g as int);
    let a = r.num as nat / g;
    let b = r.den as nat / g;
    assert(r.num * b == a * r.den) by (nonlinear_arith)
        requires
            r.num == g * a,
            r.den == g * b,
    ;
    assert(b != 0) by (nonlinear_arith)
        requires
            r.den == g * b,
            r.den != 0,
    ;
}

/// A reduced ratio is in lowest terms, so reducing again changes nothing.
pub proof fn law_reduce_lowest_terms(r: Ratio)
    requires
        r.den != 0,
    ensures
        gcd(reduce(r).num as nat, reduce(r).den as nat) == 1,
        reduce(reduce(r)) == reduce(r),
{
    let g = gcd(r.num as nat, r.den as nat);
    lemma_gcd_divides(r.num as nat, r.den as nat);
    vstd::arithmetic::div_mod::lemma_fundamental_div_mod(r.num as int, g as int);
    vstd::arithmetic::div_mod::lemma_fundamental_div_mod(r.den as int, g as int);
    let a = r.num as nat / g;
    let b = r.den as nat / g;
    lemma_gcd_scale(g, a as nat, b as nat);
    assert(g * a == r.num && g * b == r.den);
    let h = gcd(a as nat, b as nat);
    assert(h == 1) by (nonlinear_arith)
        requires
            g == g * h,
            g > 0,
    ;
    assert(reduce(r) == Ratio { num: a as u32, den: b as u32 });
}

} // verus!

verus! {

/// Conversions between seconds, milliseconds and performance-counter ticks.
#[derive(Clone, Copy, Debug)]
pub struct PerfFreq {
    for_s: u64,
    for_ms: u64,
}

impl PerfFreq {
    /// At least 1000 ticks a second, and the ticks of a millisecond are the
    /// ticks of a second divided by 1000.
    #[verifier::type_invariant]
    spec fn inv(&self) -> bool {
        &&& self.for_s >= 1000
        &&& self.for_ms == self.for_s / 1000
    }

    /// Ticks per second.
    pub closed spec fn ticks_per_s(&self) -> u64 {
        self.for_s
    }

    /// Ticks per millisecond.
    pub closed spec fn ticks_per_ms(&self) -> u64 {
        self.for_ms
    }

    /// Ticks per second; at least 1000.
    pub fn ticks_per_second(&self) -> (r: u64)
        ensures
            r == self.ticks_per_s(),
            r >= 1000,
            self.ticks_per_ms() == r / 1000,
    {
        proof {
            use_type_invariant(self);
        }
        self.for_s
    }

    /// A millisecond clock until the real frequency is known.
    pub fn uninit() -> (r: Self)
        ensures
            r.ticks_per_s() == 1000,
            r.ticks_per_ms() == 1,
    {
        Self { for_s: 1000, for_ms: 1 }
    }

    /// Takes the counter frequency `freq` (ticks per second) as the
    /// performance counter reports it. Fails, changing nothing, when it is
    /// below 1000.
    pub fn init(&mut self, freq: i64) -> (r: bool)
        ensures
            r == (freq >= 1000),
            r ==> final(self).ticks_per_s() == freq && final(self).ticks_per_ms() == freq / 1000,
            !r ==> final(self).ticks_per_s() == old(self).ticks_per_s(),
            !r ==> final(self).ticks_per_ms() == old(self).ticks_per_ms(),
    {
        if freq < 1000 {
            return false;
        }
        let f = freq as u64;
        *self = Self { for_s: f, for_ms: f / 1000 };
        true
    }

    /// Seconds to ticks.
    pub fn s_to_sample(&self, s: u64) -> (r: u64)
        requires
            s * self.ticks_per_s() <= u64::MAX,
        ensures
            r == s * self.ticks_per_s(),
    {
        s * self.for_s
    }

    /// Ticks to whole milliseconds, rounded down.
    pub fn sample_to_ms(&self, sample: u64) -> (r: u64)
        ensures
            r == sample / self.ticks_per_ms(),
    {
        proof {
            use_type_invariant(self);
        }
        sample / self.for_ms
    }

    /// Milliseconds to ticks.
    pub fn ms_to_sample(&self, ms: u64) -> (r: u64)
        requires
            ms * self.ticks_per_ms() <= u64::MAX,
        ensures
            r == ms * self.ticks_per_ms(),
    {
        ms * self.for_ms
    }
}

/// A file version as the version resource stores it: the most and least
/// significant 32 bits.
#[derive(Clone, Copy, PartialEq, Eq, Structural, Debug)]
pub struct FileVersion {
    pub ms: u32,
    pub ls: u32,
}

impl FileVersion {
    /// The four parts of the version, most significant first.
    pub fn parts(&self) -> (r: (u32, u32, u32, u32))
        ensures
            r == (self.ms / 0x10000, self.ms % 0x10000, self.ls / 0x10000, self.ls % 0x10000),
    {
        let ms = self.ms;
        let ls = self.ls;
        let r = (ms >> 16u32, ms & 0xffffu32, ls >> 16u32, ls & 0xffffu32);
        assert(ms >> 16u32 == ms / 0x10000 && ms & 0xffffu32 == ms % 0x10000) by (bit_vector);
        assert(ls >> 16u32 == ls / 0x10000 && ls & 0xffffu32 == ls % 0x10000) by (bit_vector);
        r
    }

    /// The version as it is shown to the user; see `version_text`.
    pub fn to_string(&self) -> (r: String)
        ensures
            r@ == version_text(*self),
    {
        let (a, b, c, d) = self.parts();
        proof {
            reveal_strlit(".");
        }
        let mut out = String::new();
        push_decimal(&mut out, a);
        out.append(".");
        push_decimal(&mut out, b);
        out.append(".");
        push_decimal(&mut out, c);
        out.append(".");
        push_decimal(&mut out, d);
        assert(out@ =~= version_text(*self));
        out
    }
}

/// The 64-bit XXH3 hash (seed 0) of `data`.
pub uninterp spec fn xxh3_64_of(data: Seq<u8>) -> u64;

/// `xxhash_rust::xxh3::xxh3_64`: the XXH3 64-bit hash with the default
/// seed and secret. Its result depends on the bytes alone; the contract
/// names it and states nothing more of it.
#[verifier::external_body]
fn xxh3_64(data: &[u8]) -> (r: u64)
    ensures
        r == xxh3_64_of(data@),
{
    xxhash_rust::xxh3::xxh3_64(data)
}

/// The hash that identifies a game executable by the bytes of its file.
pub fn hash_file_contents(contents: &[u8]) -> (r: u64)
    ensures
        r == xxh3_64_of(contents@),
{
    xxh3_64(contents)
}

} // verus!
