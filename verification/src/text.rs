//! Text building blocks: characters of a string, white space, trimming, and the
//! decimal rendering of integers.
use vstd::prelude::*;

verus! {

/// `String::push` appends one character.
pub assume_specification[ String::push ](s: &mut String, ch: char)
    ensures
        final(s)@ == old(s)@.push(ch),
;

/// The characters of `s`, in order.
pub fn chars_of(s: &str) -> (v: Vec<char>)
    ensures
        v@ == s@,
{
    let mut v: Vec<char> = Vec::new();
    for c in it: s.chars()
        invariant
            v@ == it.seq().take(it.index() as int),
            it.seq() == s@,
    {
        v.push(c);
    }
    v
}


/// `char::is_whitespace`: the Unicode `White_Space` property.
pub open spec fn is_white_space(c: char) -> bool {
    let v = c as u32;
    ||| 0x9 <= v <= 0xD
    ||| v == 0x20
    ||| v == 0x85
    ||| v == 0xA0
    ||| v == 0x1680
    ||| 0x2000 <= v <= 0x200A
    ||| v == 0x2028
    ||| v == 0x2029
    ||| v == 0x202F
    ||| v == 0x205F
    ||| v == 0x3000
}

pub fn is_whitespace(c: char) -> (b: bool)
    ensures
        b == is_white_space(c),
{
    let v = c as u32;
    (0x9 <= v && v <= 0xD) || v == 0x20 || v == 0x85 || v == 0xA0 || v == 0x1680 || (0x2000 <= v
        && v <= 0x200A) || v == 0x2028 || v == 0x2029 || v == 0x202F || v == 0x205F || v == 0x3000
}

/// `str::trim_start`: drops the leading white space.
pub open spec fn trim_start_spec(s: Seq<char>) -> Seq<char>
    decreases s.len(),
{
    if s.len() > 0 && is_white_space(s[0]) {
        trim_start_spec(s.drop_first())
    } else {
        s
    }
}

/// `str::trim_end`: drops the trailing white space.
pub open spec fn trim_end_spec(s: Seq<char>) -> Seq<char>
    decreases s.len(),
{
    if s.len() > 0 && is_white_space(s.last()) {
        trim_end_spec(s.drop_last())
    } else {
        s
    }
}

/// `str::trim`: drops white space at both ends.
pub open spec fn trim_spec(s: Seq<char>) -> Seq<char> {
    trim_end_spec(trim_start_spec(s))
}

proof fn lemma_trim_start_skip(s: Seq<char>, i: int)
    requires
        0 <= i <= s.len(),
        forall|k: int| 0 <= k < i ==> is_white_space(#[trigger] s[k]),
    ensures
        trim_start_spec(s) == trim_start_spec(s.subrange(i, s.len() as int)),
    decreases i,
{
    if i > 0 {
        lemma_trim_start_skip(s.drop_first(), i - 1);
        assert(s.drop_first().subrange(i - 1, s.drop_first().len() as int) =~= s.subrange(
            i,
            s.len() as int,
        ));
    } else {
        assert(s.subrange(0, s.len() as int) =~= s);
    }
}

proof fn lemma_trim_end_skip(s: Seq<char>, j: int)
    requires
        0 <= j <= s.len(),
        forall|k: int| j <= k < s.len() ==> is_white_space(#[trigger] s[k]),
    ensures
        trim_end_spec(s) == trim_end_spec(s.subrange(0, j)),
    decreases s.len() - j,
{
    if j < s.len() {
        lemma_trim_end_skip(s.drop_last(), j);
        assert(s.drop_last().subrange(0, j) =~= s.subrange(0, j));
    } else {
        assert(s.subrange(0, j) =~= s);
    }
}

/// The bounds `[a, b)` of the trimmed part of `v`.
pub fn trim_bounds(v: &Vec<char>) -> (r: (usize, usize))
    ensures
        r.0 <= r.1 <= v@.len(),
        trim_spec(v@) == v@.subrange(r.0 as int, r.1 as int),
        r.0 == r.1 ==> trim_spec(v@).len() == 0,
{
    let n = v.len();
    let mut a: usize = 0;
    while a < n && is_whitespace(v[a])
        invariant
            a <= n == v@.len(),
            forall|k: int| 0 <= k < a ==> is_white_space(#[trigger] v@[k]),
        decreases n - a,
    {
        a = a + 1;
    }
    proof {
        lemma_trim_start_skip(v@, a as int);
    }
    let ghost rest = v@.subrange(a as int, n as int);
    assert(trim_start_spec(rest) == rest);
    let mut b: usize = n;
    while b > a && is_whitespace(v[b - 1])
        invariant
            a <= b <= n == v@.len(),
            forall|k: int| b <= k < n ==> is_white_space(#[trigger] v@[k]),
        decreases b,
    {
        b = b - 1;
    }
    proof {
        assert forall|k: int| b - a <= k < rest.len() implies is_white_space(#[trigger] rest[k]) by {
            assert(rest[k] == v@[k + a]);
        }
        lemma_trim_end_skip(rest, b - a);
        assert(rest.subrange(0, b - a) =~= v@.subrange(a as int, b as int));
        let t = v@.subrange(a as int, b as int);
        if b > a {
            assert(t.last() == v@[b - 1]);
        }
    }
    (a, b)
}

/// The characters of `v[a..b]` as a string.
pub fn string_of(v: &Vec<char>, a: usize, b: usize) -> (s: String)
    requires
        a <= b <= v@.len(),
    ensures
        s@ == v@.subrange(a as int, b as int),
{
    let mut s = String::new();
    let mut i = a;
    while i < b
        invariant
            a <= i <= b <= v@.len(),
            s@ == v@.subrange(a as int, i as int),
        decreases b - i,
    {
        s.push(v[i]);
        proof {
            assert(v@.subrange(a as int, i + 1) =~= v@.subrange(a as int, i as int).push(v@[i as int]));
        }
        i = i + 1;
    }
    s
}

/// `s.trim()`, as an owned string.
pub fn trim(s: &str) -> (r: String)
    ensures
        r@ == trim_spec(s@),
{
    let v = chars_of(s);
    let (a, b) = trim_bounds(&v);
    string_of(&v, a, b)
}

// ---- decimal rendering

pub open spec fn digit_char(d: int) -> char {
    (d + 48) as char
}

/// The decimal digits of `n`, without leading zeros.
pub open spec fn dec_digits(n: nat) -> Seq<char>
    decreases n,
{
    if n < 10 {
        seq![digit_char(n as int)]
    } else {
        dec_digits(n / 10).push(digit_char((n % 10) as int))
    }
}

pub open spec fn zeros(k: nat) -> Seq<char> {
    Seq::new(k, |i: int| '0')
}

/// `n` in decimal, zero-padded on the left to at least `w` characters.
pub open spec fn pad_digits(n: nat, w: nat) -> Seq<char> {
    let d = dec_digits(n);
    if d.len() < w {
        zeros((w - d.len()) as nat) + d
    } else {
        d
    }
}

/// `format!("{:0w$}", v)` for an integer `v`: the sign counts toward the width.
pub open spec fn fmt_int(v: int, w: nat) -> Seq<char> {
    if v < 0 {
        seq!['-'] + pad_digits((-v) as nat, if w > 0 { (w - 1) as nat } else { 0 })
    } else {
        pad_digits(v as nat, w)
    }
}

fn digit(d: u64) -> (c: char)
    requires
        d < 10,
    ensures
        c == digit_char(d as int),
{
    let b: u8 = 48u8 + d as u8;
    b as char
}

fn dec_chars(n: u64) -> (r: Vec<char>)
    ensures
        r@ == dec_digits(n as nat),
    decreases n,
{
    if n < 10 {
        let mut r = Vec::new();
        r.push(digit(n));
        r
    } else {
        let mut r = dec_chars(n / 10);
        r.push(digit(n % 10));
        r
    }
}

/// Appends `n` zero-padded to width `w`.
pub fn push_uint(out: &mut String, n: u64, w: usize)
    ensures
        final(out)@ == old(out)@ + pad_digits(n as nat, w as nat),
{
    let d = dec_chars(n);
    let ghost start = out@;
    let mut k: usize = d.len();
    while k < w
        invariant
            d@ == dec_digits(n as nat),
            d.len() <= k <= (if w > d.len() { w } else { d.len() }),
            out@ == start + zeros((k - d.len()) as nat),
        decreases w - k,
    {
        out.push('0');
        proof {
            assert(zeros((k + 1 - d.len()) as nat) =~= zeros((k - d.len()) as nat).push('0'));
        }
        k = k + 1;
    }
    let ghost mid = out@;
    let mut i: usize = 0;
    while i < d.len()
        invariant
            0 <= i <= d.len(),
            out@ == mid + d@.subrange(0, i as int),
        decreases d.len() - i,
    {
        out.push(d[i]);
        proof {
            assert(d@.subrange(0, i + 1) =~= d@.subrange(0, i as int).push(d@[i as int]));
        }
        i = i + 1;
    }
    proof {
        assert(d@.subrange(0, d.len() as int) =~= d@);
        if d.len() < w {
            assert(k == w);
        } else {
            assert(zeros(0) =~= Seq::<char>::empty());
        }
        assert(out@ =~= start + pad_digits(n as nat, w as nat));
    }
}

/// Appends `v` in decimal, zero-padded to width `w` after its sign.
pub fn push_int(out: &mut String, v: i64, w: usize)
    ensures
        final(out)@ == old(out)@ + fmt_int(v as int, w as nat),
{
    if v < 0 {
        out.push('-');
        let m: u64 = (-(v + 1)) as u64 + 1;
        let ww: usize = if w > 0 { w - 1 } else { 0 };
        let ghost mid = out@;
        push_uint(out, m, ww);
        proof {
            assert(out@ =~= old(out)@ + fmt_int(v as int, w as nat));
        }
    } else {
        push_uint(out, v as u64, w);
    }
}

/// Appends a string slice.
pub fn push_str(out: &mut String, s: &str)
    ensures
        final(out)@ == old(out)@ + s@,
{
    out.append(s);
}

// ---- reading decimal digits

pub open spec fn is_ascii_digit(c: char) -> bool {
    '0' <= c && c <= '9'
}

pub open spec fn all_digits(cs: Seq<char>) -> bool {
    forall|k: int| 0 <= k < cs.len() ==> is_ascii_digit(#[trigger] cs[k])
}

/// The value of a run of decimal digits.
pub open spec fn digits_value(cs: Seq<char>) -> int
    decreases cs.len(),
{
    if cs.len() == 0 {
        0
    } else {
        digits_value(cs.drop_last()) * 10 + (cs.last() as int - 48)
    }
}

pub open spec fn pow10(n: nat) -> int
    decreases n,
{
    if n == 0 {
        1
    } else {
        10 * pow10((n - 1) as nat)
    }
}

pub proof fn lemma_digits_value_bound(cs: Seq<char>)
    requires
        all_digits(cs),
    ensures
        0 <= digits_value(cs) < pow10(cs.len()),
    decreases cs.len(),
{
    if cs.len() > 0 {
        assert(is_ascii_digit(cs[cs.len() - 1]));
        lemma_digits_value_bound(cs.drop_last());
    }
}


pub(crate) proof fn lemma_dec_digits(n: nat)
    ensures
        dec_digits(n).len() >= 1,
        all_digits(dec_digits(n)),
        digits_value(dec_digits(n)) == n,
        n < pow10((dec_digits(n).len() - 1) as nat) * 10,
        n >= 10 ==> n >= pow10((dec_digits(n).len() - 1) as nat),
    decreases n,
{
    if n >= 10 {
        lemma_dec_digits(n / 10);
        let d = dec_digits(n);
        assert(d.drop_last() =~= dec_digits(n / 10));
        assert(d.last() == digit_char((n % 10) as int));
        assert(digit_char((n % 10) as int) as int == (n % 10) + 48);
        assert(is_ascii_digit(d.last()));
        assert(digits_value(d) == digits_value(d.drop_last()) * 10 + (d.last() as int - 48));
        assert forall|k: int| 0 <= k < d.len() implies is_ascii_digit(#[trigger] d[k]) by {
            if k < d.len() - 1 {
                assert(d[k] == dec_digits(n / 10)[k]);
            }
        }
        let l = (d.len() - 1) as nat;
        assert(pow10(l) == 10 * pow10((l - 1) as nat));
        if n / 10 >= 10 {
        } else {
            assert(l == 1);
            assert(pow10(0) == 1);
        }
    } else {
        assert(pow10(0) == 1);
        let d = dec_digits(n);
        assert(d.drop_last() =~= Seq::<char>::empty());
        assert(digit_char(n as int) as int == n + 48);
        assert(digits_value(d.drop_last()) == 0);
        assert(digits_value(d) == digits_value(d.drop_last()) * 10 + (d.last() as int - 48));
    }
}

proof fn lemma_pow10_mono(a: nat, b: nat)
    requires
        a <= b,
    ensures
        pow10(a) <= pow10(b),
        pow10(a) >= 1,
    decreases b,
{
    if b > a {
        lemma_pow10_mono(a, (b - 1) as nat);
    } else if a > 0 {
        lemma_pow10_mono((a - 1) as nat, (a - 1) as nat);
    }
}

proof fn lemma_leading_zeros(k: nat, ds: Seq<char>)
    ensures
        digits_value(zeros(k) + ds) == digits_value(ds) + 0 * k,
        all_digits(ds) ==> all_digits(zeros(k) + ds),
    decreases ds.len(),
{
    if ds.len() == 0 {
        lemma_zeros_value(k);
        assert(zeros(k) + ds =~= zeros(k));
    } else {
        lemma_leading_zeros(k, ds.drop_last());
        assert((zeros(k) + ds).drop_last() =~= zeros(k) + ds.drop_last());
    }
    if all_digits(ds) {
        assert forall|i: int| 0 <= i < (zeros(k) + ds).len() implies is_ascii_digit(
            #[trigger] (zeros(k) + ds)[i],
        ) by {
            if i >= k {
                assert((zeros(k) + ds)[i] == ds[i - k]);
            }
        }
    }
}

proof fn lemma_zeros_value(k: nat)
    ensures
        digits_value(zeros(k)) == 0,
    decreases k,
{
    if k > 0 {
        lemma_zeros_value((k - 1) as nat);
        assert(zeros(k).drop_last() =~= zeros((k - 1) as nat));
    }
}

/// A number below `10^w` zero-padded to `w` places is `w` digits that read back as the number.
pub proof fn lemma_pad_digits(n: nat, w: nat)
    requires
        n < pow10(w),
        w >= 1,
    ensures
        pad_digits(n, w).len() == w,
        all_digits(pad_digits(n, w)),
        digits_value(pad_digits(n, w)) == n,
{
    lemma_dec_digits(n);
    let d = dec_digits(n);
    if d.len() > w {
        lemma_pow10_mono(w, (d.len() - 1) as nat);
    }
    lemma_leading_zeros(if d.len() < w { (w - d.len()) as nat } else { 0 }, d);
    if d.len() >= w {
        assert(zeros(0) + d =~= d);
    }
}

} // verus!
