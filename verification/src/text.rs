//! Text helpers.
use vstd::prelude::*;

verus! {

broadcast use vstd::string::axiom_spec_iter, vstd::string::next_postcondition;

/// The characters of `s`.
pub fn chars_of(s: &str) -> (r: Vec<char>)
    ensures
        r@ == s@,
{
    let mut v: Vec<char> = Vec::new();
    for c in iter: s.chars()
        invariant
            iter.seq() == s@,
            v@ == s@.take(iter.index() as int),
    {
        v.push(c);
    }
    v
}

} // verus!

verus! {

/// The characters `char::is_whitespace` accepts: those with the Unicode
/// `White_Space` property.
pub open spec fn is_white(c: char) -> bool {
    let u = c as u32;
    (0x09 <= u <= 0x0d) || u == 0x20 || u == 0x85 || u == 0xa0 || u == 0x1680 || (0x2000 <= u
        <= 0x200a) || u == 0x2028 || u == 0x2029 || u == 0x202f || u == 0x205f || u == 0x3000
}

pub fn is_white_char(c: char) -> (r: bool)
    ensures
        r == is_white(c),
{
    let u = c as u32;
    (0x09 <= u && u <= 0x0d) || u == 0x20 || u == 0x85 || u == 0xa0 || u == 0x1680 || (0x2000
        <= u && u <= 0x200a) || u == 0x2028 || u == 0x2029 || u == 0x202f || u == 0x205f || u
        == 0x3000
}

/// The index of the first character of `s` that is not whitespace (the
/// length when there is none).
pub open spec fn first_non_white(s: Seq<char>) -> int
    decreases s.len(),
{
    if s.len() == 0 || !is_white(s[0]) {
        0
    } else {
        1 + first_non_white(s.drop_first())
    }
}

/// The length of `s` without its trailing whitespace.
pub open spec fn end_non_white(s: Seq<char>) -> int
    decreases s.len(),
{
    if s.len() == 0 || !is_white(s.last()) {
        s.len() as int
    } else {
        end_non_white(s.drop_last())
    }
}

/// `s` without leading whitespace, as `str::trim_start` gives it.
pub open spec fn trim_start(s: Seq<char>) -> Seq<char> {
    s.skip(first_non_white(s))
}

/// `s` without trailing whitespace, as `str::trim_end` gives it.
pub open spec fn trim_end(s: Seq<char>) -> Seq<char> {
    s.take(end_non_white(s))
}

/// `s` without leading or trailing whitespace, as `str::trim` gives it.
pub open spec fn trim(s: Seq<char>) -> Seq<char> {
    trim_end(trim_start(s))
}

/// The code points with the Unicode `White_Space` property, as listed in
/// the Unicode character database (PropList.txt): the ASCII controls tab,
/// line feed, vertical tab, form feed and carriage return, space, next line,
/// no-break space, ogham space mark, the eleven spaces from en quad to hair
/// space, line and paragraph separators, narrow no-break space, medium
/// mathematical space and ideographic space.
pub open spec fn unicode_white_space() -> Set<u32> {
    set![
        0x09u32, 0x0a, 0x0b, 0x0c, 0x0d, 0x20, 0x85, 0xa0, 0x1680,
        0x2000, 0x2001, 0x2002, 0x2003, 0x2004, 0x2005, 0x2006, 0x2007, 0x2008, 0x2009, 0x200a,
        0x2028, 0x2029, 0x202f, 0x205f, 0x3000,
    ]
}

/// The whitespace that keys and values are trimmed of is exactly the
/// characters with the Unicode `White_Space` property, tab included.
pub proof fn law_white_is_unicode_white_space(c: char)
    ensures
        is_white(c) <==> unicode_white_space().contains(c as u32),
        is_white('\t') && is_white(' ') && is_white('\r') && is_white('\n'),
{
}

/// Whitespace before or after a text does not change it once trimmed:
/// `trim` drops any whitespace character added at either end, and
/// `trim_end` any added at its end.
pub proof fn law_trim_drops_added_white(s: Seq<char>, c: char)
    requires
        unicode_white_space().contains(c as u32),
    ensures
        trim(seq![c] + s) == trim(s),
        trim(s.push(c)) == trim(s),
        trim_end(s.push(c)) == trim_end(s),
        trim_start(seq![c] + s) == trim_start(s),
{
    let t = seq![c] + s;
    assert(t.drop_first() =~= s);
    assert(first_non_white(t) == 1 + first_non_white(s));
    lemma_first_non_white(s);
    assert(t.skip(first_non_white(t)) =~= s.skip(first_non_white(s)));
    let u = s.push(c);
    assert(u.drop_last() =~= s);
    assert(end_non_white(u) == end_non_white(s));
    lemma_end_non_white(s);
    assert(u.take(end_non_white(u)) =~= s.take(end_non_white(s)));
    lemma_trim_start_push(s, c);
}

proof fn lemma_trim_start_push(s: Seq<char>, c: char)
    requires
        is_white(c),
    ensures
        trim(s.push(c)) == trim(s),
{
    let u = s.push(c);
    lemma_first_non_white(s);
    lemma_first_non_white(u);
    if first_non_white(s) == s.len() {
        assert forall|j: int| 0 <= j < u.len() implies is_white(#[trigger] u[j]) by {
            if j < s.len() {
                assert(u[j] == s[j]);
            }
        }
        lemma_first_non_white_at(u, u.len() as int);
        assert(trim_start(u) =~= Seq::<char>::empty());
        assert(trim_start(s) =~= Seq::<char>::empty());
    } else {
        let k = first_non_white(s);
        assert forall|j: int| 0 <= j < k implies is_white(#[trigger] u[j]) by {
            assert(u[j] == s[j]);
        }
        assert(u[k] == s[k]);
        lemma_first_non_white_at(u, k);
        let a = trim_start(s);
        assert(trim_start(u) =~= a.push(c));
        assert(a.push(c).drop_last() =~= a);
        assert(end_non_white(a.push(c)) == end_non_white(a));
        lemma_end_non_white(a);
        assert(a.push(c).take(end_non_white(a)) =~= a.take(end_non_white(a)));
    }
}

/// The index of the first `c` in `s`, if any.
pub open spec fn find_char(s: Seq<char>, c: char) -> Option<int>
    decreases s.len(),
{
    if s.len() == 0 {
        None
    } else if s[0] == c {
        Some(0)
    } else {
        match find_char(s.drop_first(), c) {
            Some(i) => Some(i + 1),
            None => None,
        }
    }
}

/// The text before and after the first `c`, as `str::split_once` gives it.
pub open spec fn split_once(s: Seq<char>, c: char) -> Option<(Seq<char>, Seq<char>)> {
    match find_char(s, c) {
        Some(i) => Some((s.take(i), s.skip(i + 1))),
        None => None,
    }
}

proof fn lemma_first_non_white(s: Seq<char>)
    ensures
        0 <= first_non_white(s) <= s.len(),
        forall|j: int| 0 <= j < first_non_white(s) ==> is_white(#[trigger] s[j]),
        first_non_white(s) < s.len() ==> !is_white(s[first_non_white(s)]),
    decreases s.len(),
{
    if s.len() > 0 && is_white(s[0]) {
        lemma_first_non_white(s.drop_first());
        assert forall|j: int| 0 <= j < first_non_white(s) implies is_white(#[trigger] s[j]) by {
            if j > 0 {
                assert(s[j] == s.drop_first()[j - 1]);
            }
        }
    }
}

proof fn lemma_end_non_white(s: Seq<char>)
    ensures
        0 <= end_non_white(s) <= s.len(),
        forall|j: int| end_non_white(s) <= j < s.len() ==> is_white(#[trigger] s[j]),
        end_non_white(s) > 0 ==> !is_white(s[end_non_white(s) - 1]),
    decreases s.len(),
{
    if s.len() > 0 && is_white(s.last()) {
        lemma_end_non_white(s.drop_last());
        assert forall|j: int| end_non_white(s) <= j < s.len() implies is_white(#[trigger] s[j]) by {
            if j < s.len() - 1 {
                assert(s[j] == s.drop_last()[j]);
            }
        }
    }
}

/// `first_non_white` is the first index that is not whitespace.
pub proof fn lemma_first_non_white_at(s: Seq<char>, k: int)
    requires
        0 <= k <= s.len(),
        forall|j: int| 0 <= j < k ==> is_white(#[trigger] s[j]),
        k < s.len() ==> !is_white(s[k]),
    ensures
        first_non_white(s) == k,
{
    lemma_first_non_white(s);
    if first_non_white(s) < k {
        assert(is_white(s[first_non_white(s)]));
    }
    if first_non_white(s) > k {
        assert(is_white(s[k]));
    }
}

/// `end_non_white` is the end of the last character that is not whitespace.
pub proof fn lemma_end_non_white_at(s: Seq<char>, k: int)
    requires
        0 <= k <= s.len(),
        forall|j: int| k <= j < s.len() ==> is_white(#[trigger] s[j]),
        k > 0 ==> !is_white(s[k - 1]),
    ensures
        end_non_white(s) == k,
{
    lemma_end_non_white(s);
    if end_non_white(s) < k {
        assert(is_white(s[k - 1]));
    }
    if end_non_white(s) > k {
        assert(is_white(s[end_non_white(s) - 1]));
    }
}

/// `find_char` finds the first occurrence.
pub proof fn lemma_find_char_at(s: Seq<char>, c: char, k: int)
    requires
        0 <= k <= s.len(),
        forall|j: int| 0 <= j < k ==> #[trigger] s[j] != c,
        k < s.len() ==> s[k] == c,
    ensures
        find_char(s, c) == if k < s.len() {
            Some(k)
        } else {
            None::<int>
        },
    decreases k,
{
    if s.len() > 0 && k > 0 {
        assert(s[0] != c);
        assert forall|j: int| 0 <= j < k - 1 implies #[trigger] s.drop_first()[j] != c by {
            assert(s.drop_first()[j] == s[j + 1]);
        }
        lemma_find_char_at(s.drop_first(), c, k - 1);
    }
}

/// The index of the first whitespace-free character of `s[from..to]`.
pub fn skip_white(s: &Vec<char>, from: usize, to: usize) -> (r: usize)
    requires
        from <= to <= s@.len(),
    ensures
        from <= r <= to,
        r - from == first_non_white(s@.subrange(from as int, to as int)),
{
    let mut i = from;
    while i < to && is_white_char(s[i])
        invariant
            from <= i <= to <= s@.len(),
            forall|j: int| from <= j < i ==> is_white(#[trigger] s@[j]),
        decreases to - i,
    {
        i = i + 1;
    }
    proof {
        let sub = s@.subrange(from as int, to as int);
        assert forall|j: int| 0 <= j < i - from implies is_white(#[trigger] sub[j]) by {
            assert(sub[j] == s@[from + j]);
        }
        lemma_first_non_white_at(sub, i - from);
    }
    i
}

/// The end of `s[from..to]` without its trailing whitespace.
pub fn end_white(s: &Vec<char>, from: usize, to: usize) -> (r: usize)
    requires
        from <= to <= s@.len(),
    ensures
        from <= r <= to,
        r - from == end_non_white(s@.subrange(from as int, to as int)),
{
    let mut i = to;
    while i > from && is_white_char(s[i - 1])
        invariant
            from <= i <= to <= s@.len(),
            forall|j: int| i <= j < to ==> is_white(#[trigger] s@[j]),
        decreases i - from,
    {
        i = i - 1;
    }
    proof {
        let sub = s@.subrange(from as int, to as int);
        assert forall|j: int| i - from <= j < sub.len() implies is_white(#[trigger] sub[j]) by {
            assert(sub[j] == s@[from + j]);
        }
        lemma_end_non_white_at(sub, i - from);
    }
    i
}

/// The index of the first `c` in `s[from..to]`, if any.
pub fn find(s: &Vec<char>, from: usize, to: usize, c: char) -> (r: Option<usize>)
    requires
        from <= to <= s@.len(),
    ensures
        match r {
            Some(k) => from <= k < to && find_char(s@.subrange(from as int, to as int), c) == Some(
                k - from,
            ),
            None => find_char(s@.subrange(from as int, to as int), c) is None,
        },
{
    let mut i = from;
    while i < to && s[i] != c
        invariant
            from <= i <= to <= s@.len(),
            forall|j: int| from <= j < i ==> #[trigger] s@[j] != c,
        decreases to - i,
    {
        i = i + 1;
    }
    proof {
        let sub = s@.subrange(from as int, to as int);
        assert forall|j: int| 0 <= j < i - from implies #[trigger] sub[j] != c by {
            assert(sub[j] == s@[from + j]);
        }
        lemma_find_char_at(sub, c, i - from);
    }
    if i < to {
        Some(i)
    } else {
        None
    }
}

/// Whether `s[from..to]` is the text `lit`.
pub fn eq_text(s: &Vec<char>, from: usize, to: usize, lit: &str) -> (r: bool)
    requires
        from <= to <= s@.len(),
    ensures
        r == (s@.subrange(from as int, to as int) == lit@),
{
    let l = chars_of(lit);
    if to - from != l.len() {
        assert(s@.subrange(from as int, to as int).len() != l@.len());
        return false;
    }
    let mut i = 0usize;
    while i < l.len()
        invariant
            l@ == lit@,
            to - from == l@.len(),
            from <= to <= s@.len(),
            i <= l@.len(),
            forall|j: int| 0 <= j < i ==> s@[from + j] == #[trigger] l@[j],
        decreases l@.len() - i,
    {
        if s[from + i] != l[i] {
            assert(s@.subrange(from as int, to as int)[i as int] != l@[i as int]);
            return false;
        }
        i = i + 1;
    }
    assert(s@.subrange(from as int, to as int) =~= l@);
    true
}

} // verus!

verus! {

pub open spec fn is_digit(c: char) -> bool {
    '0' <= c <= '9'
}

/// The decimal value of a string of digits.
pub open spec fn digits_value(s: Seq<char>) -> int
    decreases s.len(),
{
    if s.len() == 0 {
        0
    } else {
        digits_value(s.drop_last()) * 10 + (s.last() as int - '0' as int)
    }
}

/// What `u32::from_str` gives: an optional `+`, then at least one decimal
/// digit and nothing else, with a value that fits.
pub open spec fn parse_u32(s: Seq<char>) -> Option<u32> {
    let d = unsigned_digits(s);
    if d.len() == 0 || !all_digits(d) || digits_value(d) > u32::MAX {
        None
    } else {
        Some(digits_value(d) as u32)
    }
}

/// `s` without a leading `+`.
pub open spec fn unsigned_digits(s: Seq<char>) -> Seq<char> {
    if s.len() > 0 && s[0] == '+' {
        s.drop_first()
    } else {
        s
    }
}

/// Whether every character of `s` is a decimal digit.
pub open spec fn all_digits(s: Seq<char>) -> bool {
    forall|i: int| 0 <= i < s.len() ==> is_digit(#[trigger] s[i])
}

/// What `bool::from_str` gives.
pub open spec fn parse_bool(s: Seq<char>) -> Option<bool> {
    if s == "true"@ {
        Some(true)
    } else if s == "false"@ {
        Some(false)
    } else {
        None
    }
}

proof fn lemma_digits_step(s: Seq<char>, k: int)
    requires
        0 <= k < s.len(),
    ensures
        digits_value(s.take(k + 1)) == digits_value(s.take(k)) * 10 + (s[k] as int - '0' as int),
{
    assert(s.take(k + 1).drop_last() =~= s.take(k));
}

proof fn lemma_digits_mono(s: Seq<char>, k: int, n: int)
    requires
        0 <= k <= n <= s.len(),
        forall|i: int| 0 <= i < s.len() ==> is_digit(#[trigger] s[i]),
    ensures
        digits_value(s.take(k)) <= digits_value(s.take(n)),
        digits_value(s.take(k)) >= 0,
    decreases n - k,
{
    if k < n {
        lemma_digits_step(s, k);
        lemma_digits_mono(s, k + 1, n);
    } else {
        lemma_digits_nonneg(s.take(k));
    }
}

proof fn lemma_digits_nonneg(s: Seq<char>)
    requires
        forall|i: int| 0 <= i < s.len() ==> is_digit(#[trigger] s[i]),
    ensures
        digits_value(s) >= 0,
    decreases s.len(),
{
    if s.len() > 0 {
        lemma_digits_nonneg(s.drop_last());
    }
}

/// Parses `s[from..to]` as `u32::from_str` does.
pub fn parse_u32_at(s: &Vec<char>, from: usize, to: usize) -> (r: Option<u32>)
    requires
        from <= to <= s@.len(),
    ensures
        r == parse_u32(s@.subrange(from as int, to as int)),
{
    let ghost sub = s@.subrange(from as int, to as int);
    let start = if from < to && s[from] == '+' {
        from + 1
    } else {
        from
    };
    let ghost d = s@.subrange(start as int, to as int);
    assert(d =~= unsigned_digits(sub));
    if start == to {
        return None;
    }
    let mut i = start;
    while i < to
        invariant
            start <= i <= to <= s@.len(),
            sub == s@.subrange(from as int, to as int),
            d == unsigned_digits(sub),
            d == s@.subrange(start as int, to as int),
            forall|j: int| start <= j < i ==> is_digit(#[trigger] s@[j]),
        decreases to - i,
    {
        if !('0' <= s[i] && s[i] <= '9') {
            assert(!is_digit(d[i - start]));
            return None;
        }
        i = i + 1;
    }
    assert forall|j: int| 0 <= j < d.len() implies is_digit(#[trigger] d[j]) by {
        assert(d[j] == s@[start + j]);
    }
    let mut acc: u64 = 0;
    let mut i = start;
    while i < to
        invariant
            start <= i <= to <= s@.len(),
            sub == s@.subrange(from as int, to as int),
            d == s@.subrange(start as int, to as int),
            d == unsigned_digits(sub),
            forall|j: int| 0 <= j < d.len() ==> is_digit(#[trigger] d[j]),
            acc == digits_value(d.take(i - start)),
            acc <= u32::MAX,
        decreases to - i,
    {
        proof {
            lemma_digits_step(d, i - start);
        }
        let digit = (s[i] as u32 - '0' as u32) as u64;
        acc = acc * 10 + digit;
        if acc > 0xffff_ffffu64 {
            proof {
                lemma_digits_mono(d, i + 1 - start, d.len() as int);
                assert(d.take(d.len() as int) =~= d);
            }
            return None;
        }
        i = i + 1;
    }
    assert(d.take(d.len() as int) =~= d);
    Some(acc as u32)
}

/// Parses `s[from..to]` as `bool::from_str` does.
pub fn parse_bool_at(s: &Vec<char>, from: usize, to: usize) -> (r: Option<bool>)
    requires
        from <= to <= s@.len(),
    ensures
        r == parse_bool(s@.subrange(from as int, to as int)),
{
    if eq_text(s, from, to, "true") {
        Some(true)
    } else if eq_text(s, from, to, "false") {
        Some(false)
    } else {
        None
    }
}

} // verus!

verus! {

use vstd::string::StringExecFns;

/// The decimal digit character for `d < 10`.
pub open spec fn digit_char(d: nat) -> char {
    ((d + 48) as u32) as char
}

/// The decimal representation of `n`, without leading zeros.
pub open spec fn decimal(n: nat) -> Seq<char>
    decreases n,
{
    if n < 10 {
        seq![digit_char(n)]
    } else {
        decimal(n / 10).push(digit_char(n % 10))
    }
}

/// The one-character string of the digit `d`.
fn digit_str(d: u32) -> (r: &'static str)
    requires
        d < 10,
    ensures
        r@ == seq![digit_char(d as nat)],
{
    proof {
        reveal_strlit("0");
        reveal_strlit("1");
        reveal_strlit("2");
        reveal_strlit("3");
        reveal_strlit("4");
        reveal_strlit("5");
        reveal_strlit("6");
        reveal_strlit("7");
        reveal_strlit("8");
        reveal_strlit("9");
    }
    let r = match d {
        0 => "0",
        1 => "1",
        2 => "2",
        3 => "3",
        4 => "4",
        5 => "5",
        6 => "6",
        7 => "7",
        8 => "8",
        _ => "9",
    };
    assert(r@ =~= seq![digit_char(d as nat)]);
    r
}

/// Appends the decimal representation of `n` to `out`, as `{}` formats it.
pub fn push_decimal(out: &mut String, n: u32)
    ensures
        final(out)@ == old(out)@ + decimal(n as nat),
    decreases n,
{
    if n < 10 {
        out.append(digit_str(n));
    } else {
        push_decimal(out, n / 10);
        out.append(digit_str(n % 10));
        assert(old(out)@ + decimal(n as nat) =~= old(out)@ + decimal((n / 10) as nat) + seq![digit_char((n % 10) as nat)]);
    }
}

} // verus!

verus! {

/// A string without `c` has no first `c`.
pub proof fn lemma_find_absent(s: Seq<char>, c: char)
    requires
        forall|i: int| 0 <= i < s.len() ==> s[i] != c,
    ensures
        find_char(s, c) is None,
    decreases s.len(),
{
    if s.len() > 0 {
        lemma_find_absent(s.drop_first(), c);
    }
}

/// The first `c` of `a + [c] + b`, where `a` has none, ends `a`.
pub proof fn lemma_find_after(a: Seq<char>, c: char, b: Seq<char>)
    requires
        forall|i: int| 0 <= i < a.len() ==> a[i] != c,
    ensures
        find_char(a + seq![c] + b, c) == Some(a.len() as int),
    decreases a.len(),
{
    let s = a + seq![c] + b;
    if a.len() > 0 {
        assert(s.drop_first() =~= a.drop_first() + seq![c] + b);
        lemma_find_after(a.drop_first(), c, b);
    } else {
        assert(s[0] == c);
    }
}

/// The decimal representation of `n` is a non-empty string of digits whose
/// value is `n`.
pub proof fn lemma_decimal(n: nat)
    ensures
        decimal(n).len() > 0,
        all_digits(decimal(n)),
        digits_value(decimal(n)) == n,
    decreases n,
{
    if n < 10 {
        let d = decimal(n);
        assert(d.drop_last() =~= Seq::<char>::empty());
        assert(digit_char(n) as int == n + 48);
        assert(digits_value(d) == digits_value(d.drop_last()) * 10 + (d.last() as int - '0' as int));
    } else {
        lemma_decimal(n / 10);
        let d = decimal(n);
        assert(d.drop_last() =~= decimal(n / 10));
        assert(digit_char(n % 10) as int == n % 10 + 48);
        vstd::arithmetic::div_mod::lemma_fundamental_div_mod(n as int, 10);
        assert(digits_value(d) == digits_value(decimal(n / 10)) * 10 + (n % 10));
        assert forall|i: int| 0 <= i < d.len() implies is_digit(#[trigger] d[i]) by {
            if i < d.len() - 1 {
                assert(d[i] == decimal(n / 10)[i]);
            }
        }
    }
}

/// Reading the decimal representation of a `u32` back gives the number.
pub proof fn lemma_parse_decimal(n: u32)
    ensures
        parse_u32(decimal(n as nat)) == Some(n),
        forall|i: int| 0 <= i < decimal(n as nat).len() ==> decimal(n as nat)[i] != '/',
{
    lemma_decimal(n as nat);
    let d = decimal(n as nat);
    assert(is_digit(d[0]));
    assert(unsigned_digits(d) == d);
    assert forall|i: int| 0 <= i < d.len() implies d[i] != '/' by {
        assert(is_digit(d[i]));
    }
}

} // verus!
