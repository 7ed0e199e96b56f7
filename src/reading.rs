use vstd::prelude::*;
use crate::template::chars_of;

verus! {

/// The exclusive upper bound of a plausible fan speed, in RPM.
pub const RPM_LIMIT: u64 = 10000;

pub open spec fn is_digit(c: char) -> bool {
    '0' <= c && c <= '9'
}

pub open spec fn digit_value(c: char) -> int {
    if is_digit(c) { (c as u32) - ('0' as u32) } else { 0 }
}

pub open spec fn all_digits(s: Seq<char>) -> bool {
    forall|i: int| 0 <= i < s.len() ==> is_digit(#[trigger] s[i])
}

pub open spec fn all_zeros(s: Seq<char>) -> bool {
    forall|i: int| 0 <= i < s.len() ==> #[trigger] s[i] == '0'
}

/// The number that a string of decimal digits denotes.
pub open spec fn digits_val(s: Seq<char>) -> int
    decreases s.len(),
{
    if s.len() == 0 {
        0
    } else {
        digits_val(s.drop_last()) * 10 + digit_value(s.last())
    }
}

/// `k` is where the leading run of digits of `b` ends.
pub open spec fn is_run_end(b: Seq<char>, k: int) -> bool {
    0 <= k <= b.len() && all_digits(b.take(k)) && (k == b.len() || !is_digit(b[k]))
}

pub open spec fn run_end(b: Seq<char>) -> int {
    choose|k: int| is_run_end(b, k)
}

pub open spec fn is_negative(t: Seq<char>) -> bool {
    t.len() > 0 && t[0] == '-'
}

pub open spec fn unsigned_part(t: Seq<char>) -> Seq<char> {
    if is_negative(t) { t.skip(1) } else { t }
}

pub open spec fn whole_digits(b: Seq<char>) -> Seq<char> {
    b.take(run_end(b))
}

pub open spec fn fraction_digits(b: Seq<char>) -> Seq<char> {
    if run_end(b) < b.len() { b.skip(run_end(b) + 1) } else { Seq::empty() }
}

/// Digits, optionally followed by a point and more digits.
pub open spec fn is_plain_decimal(b: Seq<char>) -> bool {
    run_end(b) > 0 && (run_end(b) == b.len() || (b[run_end(b)] == '.'
        && fraction_digits(b).len() > 0 && all_digits(fraction_digits(b))))
}

/// The reading that a number's text gives: the number truncated toward zero,
/// when the text is a plain decimal whose value lies in `[0, 10000)`.
/// A negative zero counts as zero; a number written with an exponent gives no reading.
pub open spec fn reading_of(t: Seq<char>) -> Option<u64> {
    let b = unsigned_part(t);
    let w = digits_val(whole_digits(b));
    if !is_plain_decimal(b) {
        None
    } else if is_negative(t) && !(w == 0 && all_zeros(fraction_digits(b))) {
        None
    } else if w < RPM_LIMIT {
        Some(w as u64)
    } else {
        None
    }
}

proof fn lemma_digits_val_nonneg(s: Seq<char>)
    ensures
        digits_val(s) >= 0,
    decreases s.len(),
{
    if s.len() > 0 {
        lemma_digits_val_nonneg(s.drop_last());
    }
}

proof fn lemma_run_end_unique(b: Seq<char>, k: int)
    requires
        is_run_end(b, k),
    ensures
        run_end(b) == k,
{
    let j = run_end(b);
    assert(is_run_end(b, j));
    if j < k {
        assert(b.take(k)[j] == b[j]);
    } else if j > k {
        assert(b.take(j)[k] == b[k]);
    }
}

/// The reading that a number's text gives, if it gives one.
pub fn parse_reading(text: &str) -> (r: Option<u64>)
    ensures
        r == reading_of(text@),
        r matches Some(v) ==> v < RPM_LIMIT,
{
    let t = chars_of(text);
    let n = t.len();
    let neg = n > 0 && t[0] == '-';
    let start: usize = if neg { 1 } else { 0 };
    let ghost b = unsigned_part(t@);
    assert(b =~= t@.skip(start as int));
    let mut acc: u64 = 0;
    let mut i: usize = start;
    assert(b.take(0) =~= Seq::<char>::empty());
    while i < n && '0' <= t[i] && t[i] <= '9'
        invariant
            n == t@.len(),
            t@ == text@,
            b == t@.skip(start as int),
            start <= i <= n,
            all_digits(b.take(i - start)),
            acc == (if digits_val(b.take(i - start)) < RPM_LIMIT {
                digits_val(b.take(i - start))
            } else {
                RPM_LIMIT as int
            }),
        decreases n - i,
    {
        let ghost k = i - start;
        let d = (t[i] as u32 - '0' as u32) as u64;
        proof {
            assert(b.take(k + 1).drop_last() =~= b.take(k));
            assert(b.take(k + 1).last() == t@[i as int]);
            lemma_digits_val_nonneg(b.take(k));
            assert(all_digits(b.take(k + 1))) by {
                assert forall|j: int| 0 <= j < k + 1 implies is_digit(#[trigger] b.take(k + 1)[j]) by {
                    if j < k {
                        assert(b.take(k + 1)[j] == b.take(k)[j]);
                    }
                }
            }
        }
        if acc >= RPM_LIMIT {
            acc = RPM_LIMIT;
        } else {
            let v = acc * 10 + d;
            acc = if v < RPM_LIMIT { v } else { RPM_LIMIT };
        }
        i = i + 1;
    }
    let ghost k = i - start;
    proof {
        assert(is_run_end(b, k));
        lemma_run_end_unique(b, k);
        assert(whole_digits(b) == b.take(k));
        lemma_digits_val_nonneg(b.take(k));
    }
    if i == start {
        return None;
    }
    let mut frac_zero = true;
    if i < n {
        if t[i] != '.' || i + 1 == n {
            return None;
        }
        let ghost f = fraction_digits(b);
        assert(f =~= t@.skip(i + 1));
        assert(f.take(0) =~= Seq::<char>::empty());
        let mut j: usize = i + 1;
        while j < n
            invariant
                n == t@.len(),
                t@ == text@,
                b == unsigned_part(text@),
                b == t@.skip(start as int),
                neg == is_negative(text@),
                start <= i < n,
                run_end(b) == i - start,
                b[i - start] == '.',
                f == fraction_digits(b),
                digits_val(whole_digits(b)) >= 0,
                acc == (if digits_val(whole_digits(b)) < RPM_LIMIT {
                    digits_val(whole_digits(b))
                } else {
                    RPM_LIMIT as int
                }),
                f == t@.skip(i + 1),
                i + 1 <= j <= n,
                all_digits(f.take(j - i - 1)),
                frac_zero == all_zeros(f.take(j - i - 1)),
            decreases n - j,
        {
            let ghost m = j - i - 1;
            assert(f[m] == t@[j as int]);
            if !('0' <= t[j] && t[j] <= '9') {
                assert(!all_digits(f));
                return None;
            }
            assert(all_digits(f.take(m + 1))) by {
                assert forall|x: int| 0 <= x < m + 1 implies is_digit(#[trigger] f.take(m + 1)[x]) by {
                    if x < m {
                        assert(f.take(m + 1)[x] == f.take(m)[x]);
                    }
                }
            }
            let c = t[j];
            if c != '0' {
                assert(f.take(m + 1)[m] != '0');
                frac_zero = false;
            }
            if frac_zero {
                assert(all_zeros(f.take(m + 1))) by {
                    assert forall|x: int| 0 <= x < m + 1 implies #[trigger] f.take(m + 1)[x] == '0' by {
                        if x < m {
                            assert(f.take(m + 1)[x] == f.take(m)[x]);
                        }
                    }
                }
            } else {
                assert(!all_zeros(f.take(m + 1))) by {
                    if c != '0' {
                    } else {
                        let x = choose|x: int| 0 <= x < m && #[trigger] f.take(m)[x] != '0';
                        assert(f.take(m + 1)[x] == f.take(m)[x]);
                    }
                }
            }
            j = j + 1;
        }
        assert(f.take(n - i - 1) =~= f);
    } else {
        assert(fraction_digits(b) =~= Seq::<char>::empty());
    }
    if neg && !(acc == 0 && frac_zero) {
        return None;
    }
    if acc < RPM_LIMIT {
        Some(acc)
    } else {
        None
    }
}

/// One numeric field of one sensor input, with the number as it was printed.
#[derive(Clone, Debug)]
pub struct Sample {
    pub input: String,
    pub metric: String,
    pub number: String,
}

/// A raw tachometer field: its name starts with `fan` and ends with `input`.
pub open spec fn is_fan_metric(name: Seq<char>) -> bool {
    name.len() >= 3 && name.take(3) == seq!['f', 'a', 'n'] && name.len() >= 5
        && name.skip(name.len() - 5) == seq!['i', 'n', 'p', 'u', 't']
}

pub open spec fn listed(names: Seq<String>, x: Seq<char>) -> bool {
    exists|i: int| 0 <= i < names.len() && (#[trigger] names[i])@ == x
}

pub open spec fn whitelist_view(whitelist: Option<Vec<String>>) -> Option<Seq<String>> {
    match whitelist {
        Some(v) => Some(v@),
        None => None,
    }
}

/// Whether a sample is looked at: its input is allowed and its field is a tachometer.
pub open spec fn considered(whitelist: Option<Seq<String>>, s: Sample) -> bool {
    (match whitelist {
        Some(w) => listed(w, s.input@),
        None => true,
    }) && is_fan_metric(s.metric@)
}

/// The readings that a list of samples yields, in order.
pub open spec fn counted(samples: Seq<Sample>, whitelist: Option<Seq<String>>) -> Seq<u64>
    decreases samples.len(),
{
    if samples.len() == 0 {
        Seq::empty()
    } else {
        let p = counted(samples.drop_last(), whitelist);
        let s = samples.last();
        if considered(whitelist, s) && reading_of(s.number@) is Some {
            p.push(reading_of(s.number@).unwrap())
        } else {
            p
        }
    }
}

/// The numbers of the considered samples that give no reading, in order.
pub open spec fn rejected(samples: Seq<Sample>, whitelist: Option<Seq<String>>) -> Seq<Seq<char>>
    decreases samples.len(),
{
    if samples.len() == 0 {
        Seq::empty()
    } else {
        let p = rejected(samples.drop_last(), whitelist);
        let s = samples.last();
        if considered(whitelist, s) && reading_of(s.number@) is None {
            p.push(s.number@)
        } else {
            p
        }
    }
}

/// Whether a field name is that of a raw tachometer.
pub fn is_fan_metric_name(name: &str) -> (r: bool)
    ensures
        r == is_fan_metric(name@),
{
    let c = chars_of(name);
    let n = c.len();
    if n < 5 {
        return false;
    }
    let r = c[0] == 'f' && c[1] == 'a' && c[2] == 'n' && c[n - 5] == 'i' && c[n - 4] == 'n'
        && c[n - 3] == 'p' && c[n - 2] == 'u' && c[n - 1] == 't';
    proof {
        let s = name@;
        if r {
            assert(s.take(3) =~= seq!['f', 'a', 'n']);
            assert(s.skip(n - 5) =~= seq!['i', 'n', 'p', 'u', 't']);
        } else if is_fan_metric(s) {
            assert(s.take(3)[0] == 'f' && s.take(3)[1] == 'a' && s.take(3)[2] == 'n');
            let e = s.skip(n - 5);
            assert(e[0] == 'i' && e[1] == 'n' && e[2] == 'p' && e[3] == 'u' && e[4] == 't');
        }
    }
    r
}

/// Whether `x` is one of `names`.
pub fn is_listed(names: &Vec<String>, x: &String) -> (r: bool)
    ensures
        r == listed(names@, x@),
{
    let mut i: usize = 0;
    while i < names.len()
        invariant
            i <= names.len(),
            forall|j: int| 0 <= j < i ==> (#[trigger] names@[j])@ != x@,
        decreases names.len() - i,
    {
        if names[i] == *x {
            return true;
        }
        i = i + 1;
    }
    false
}

fn is_considered(whitelist: &Option<Vec<String>>, s: &Sample) -> (r: bool)
    ensures
        r == considered(whitelist_view(*whitelist), *s),
{
    let allowed = match whitelist {
        Some(w) => is_listed(w, &s.input),
        None => true,
    };
    allowed && is_fan_metric_name(s.metric.as_str())
}

/// Splits the samples into the readings they yield and the numbers that are
/// out of range, both in the order of the samples.
pub fn select_readings(samples: &Vec<Sample>, whitelist: &Option<Vec<String>>) -> (r: (Vec<u64>, Vec<String>))
    ensures
        r.0@ == counted(samples@, whitelist_view(*whitelist)),
        r.1@.len() == rejected(samples@, whitelist_view(*whitelist)).len(),
        forall|i: int| 0 <= i < r.1@.len() ==> (#[trigger] r.1@[i])@ == rejected(samples@, whitelist_view(*whitelist))[i],
        forall|i: int| 0 <= i < r.0@.len() ==> #[trigger] r.0@[i] < RPM_LIMIT,
{
    let ghost wl = whitelist_view(*whitelist);
    let mut readings: Vec<u64> = Vec::new();
    let mut out_of_range: Vec<String> = Vec::new();
    let mut i: usize = 0;
    while i < samples.len()
        invariant
            i <= samples.len(),
            wl == whitelist_view(*whitelist),
            readings@ == counted(samples@.take(i as int), wl),
            out_of_range@.len() == rejected(samples@.take(i as int), wl).len(),
            forall|j: int| 0 <= j < out_of_range@.len() ==> (#[trigger] out_of_range@[j])@ == rejected(samples@.take(i as int), wl)[j],
            forall|j: int| 0 <= j < readings@.len() ==> #[trigger] readings@[j] < RPM_LIMIT,
        decreases samples.len() - i,
    {
        let s = &samples[i];
        proof {
            assert(samples@.take(i + 1).drop_last() =~= samples@.take(i as int));
            assert(samples@.take(i + 1).last() == *s);
        }
        if is_considered(whitelist, s) {
            match parse_reading(s.number.as_str()) {
                Some(v) => {
                    readings.push(v);
                },
                None => {
                    out_of_range.push(s.number.clone());
                },
            }
        }
        i = i + 1;
    }
    assert(samples@.take(i as int) =~= samples@);
    (readings, out_of_range)
}

} // verus!
