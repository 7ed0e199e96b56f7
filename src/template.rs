use vstd::prelude::*;

verus! {

/// One step of a compiled format: a literal character or one of the three values.
#[derive(Clone, Copy, Debug, PartialEq, Eq, Structural)]
pub enum Segment {
    Literal(char),
    Average,
    Min,
    Max,
}

/// The three values that a format can show.
#[derive(Clone, Copy, Debug, PartialEq, Eq, Structural)]
pub struct Values {
    pub min: u64,
    pub max: u64,
    pub average: u64,
}

/// A format string compiled once into its segments.
#[derive(Clone, Debug)]
pub struct FormatTemplate {
    segments: Vec<Segment>,
}

/// A format string that names an unknown placeholder or has a stray brace.
#[derive(Clone, Copy, Debug, PartialEq, Eq, Structural)]
pub struct FormatError {
    /// The character position at which compilation stopped.
    pub position: usize,
}

pub open spec fn has_prefix(s: Seq<char>, tag: Seq<char>) -> bool {
    tag.len() <= s.len() && s.take(tag.len() as int) == tag
}

pub open spec fn average_tag() -> Seq<char> {
    seq!['{', 'a', 'v', 'e', 'r', 'a', 'g', 'e', '}']
}

pub open spec fn min_tag() -> Seq<char> {
    seq!['{', 'm', 'i', 'n', '}']
}

pub open spec fn max_tag() -> Seq<char> {
    seq!['{', 'm', 'a', 'x', '}']
}

pub open spec fn prepend(x: Segment, r: Option<Seq<Segment>>) -> Option<Seq<Segment>> {
    match r {
        Some(t) => Some(seq![x] + t),
        None => None,
    }
}

/// What a format string compiles to: `{average}`, `{min}` and `{max}` are placeholders,
/// any other brace makes the format invalid, every other character stands for itself.
pub open spec fn parse_format(s: Seq<char>) -> Option<Seq<Segment>>
    decreases s.len(),
{
    if s.len() == 0 {
        Some(Seq::empty())
    } else if s[0] == '{' {
        if has_prefix(s, average_tag()) {
            prepend(Segment::Average, parse_format(s.skip(average_tag().len() as int)))
        } else if has_prefix(s, min_tag()) {
            prepend(Segment::Min, parse_format(s.skip(min_tag().len() as int)))
        } else if has_prefix(s, max_tag()) {
            prepend(Segment::Max, parse_format(s.skip(max_tag().len() as int)))
        } else {
            None
        }
    } else if s[0] == '}' {
        None
    } else {
        prepend(Segment::Literal(s[0]), parse_format(s.skip(1)))
    }
}

/// The character of a decimal digit.
pub open spec fn digit_char(d: nat) -> char {
    if d == 0 { '0' }
    else if d == 1 { '1' }
    else if d == 2 { '2' }
    else if d == 3 { '3' }
    else if d == 4 { '4' }
    else if d == 5 { '5' }
    else if d == 6 { '6' }
    else if d == 7 { '7' }
    else if d == 8 { '8' }
    else { '9' }
}

/// The decimal text of a natural number, without leading zeros.
pub open spec fn decimal(n: nat) -> Seq<char>
    decreases n,
{
    if n < 10 {
        seq![digit_char(n)]
    } else {
        decimal(n / 10).push(digit_char(n % 10))
    }
}

pub open spec fn segment_text(seg: Segment, v: Values) -> Seq<char> {
    match seg {
        Segment::Literal(c) => seq![c],
        Segment::Average => decimal(v.average as nat),
        Segment::Min => decimal(v.min as nat),
        Segment::Max => decimal(v.max as nat),
    }
}

/// The text of a sequence of segments with the given values put in.
pub open spec fn rendered(segs: Seq<Segment>, v: Values) -> Seq<char>
    decreases segs.len(),
{
    if segs.len() == 0 {
        Seq::empty()
    } else {
        rendered(segs.drop_last(), v) + segment_text(segs.last(), v)
    }
}

/// Relies on String::push: the character is appended at the end.
pub assume_specification[ String::push ](s: &mut String, ch: char)
    ensures
        final(s)@ == old(s)@.push(ch),
;

fn digit_of(d: u64) -> (c: char)
    requires
        d < 10,
    ensures
        c == digit_char(d as nat),
{
    if d == 0 { '0' }
    else if d == 1 { '1' }
    else if d == 2 { '2' }
    else if d == 3 { '3' }
    else if d == 4 { '4' }
    else if d == 5 { '5' }
    else if d == 6 { '6' }
    else if d == 7 { '7' }
    else if d == 8 { '8' }
    else { '9' }
}

/// Appends the decimal text of `n`.
pub fn push_decimal(out: &mut String, n: u64)
    ensures
        final(out)@ == old(out)@ + decimal(n as nat),
    decreases n,
{
    if n >= 10 {
        push_decimal(out, n / 10);
    }
    out.push(digit_of(n % 10));
    proof {
        assert(old(out)@ + decimal(n as nat) == (if n >= 10 {
            old(out)@ + decimal((n / 10) as nat)
        } else {
            old(out)@
        }).push(digit_char((n % 10) as nat)));
    }
}

/// Whether `tag` stands in `s` at position `i`.
fn tag_at(s: &Vec<char>, i: usize, tag: &str) -> (r: bool)
    requires
        i <= s.len(),
    ensures
        r == has_prefix(s@.skip(i as int), tag@),
{
    let n = tag.unicode_len();
    if n > s.len() - i {
        return false;
    }
    let mut j: usize = 0;
    while j < n
        invariant
            n == tag@.len(),
            i + n <= s.len(),
            j <= n,
            forall|k: int| 0 <= k < j ==> s@[i + k] == tag@[k],
        decreases n - j,
    {
        if s[i + j] != tag.get_char(j) {
            assert(s@.skip(i as int).take(n as int)[j as int] != tag@[j as int]);
            return false;
        }
        j = j + 1;
    }
    assert(s@.skip(i as int).take(n as int) =~= tag@);
    true
}

proof fn lemma_push_concat(before: Seq<Segment>, x: Segment, t: Seq<Segment>)
    ensures
        before.push(x) + t == before + (seq![x] + t),
{
    assert(before.push(x) + t =~= before + (seq![x] + t));
}

pub(crate) fn chars_of(s: &str) -> (r: Vec<char>)
    ensures
        r@ == s@,
{
    let n = s.unicode_len();
    let mut r: Vec<char> = Vec::new();
    let mut i: usize = 0;
    while i < n
        invariant
            n == s@.len(),
            i <= n,
            r@ == s@.take(i as int),
        decreases n - i,
    {
        r.push(s.get_char(i));
        i = i + 1;
        assert(r@ =~= s@.take(i as int));
    }
    assert(s@.take(n as int) =~= s@);
    r
}

impl FormatTemplate {
    pub closed spec fn view(&self) -> Seq<Segment> {
        self.segments@
    }

    /// Compiles a format string; fails exactly when the format is invalid.
    pub fn from_string(format: &str) -> (r: Result<FormatTemplate, FormatError>)
        ensures
            match r {
                Ok(t) => parse_format(format@) == Some(t@),
                Err(_) => parse_format(format@) is None,
            },
    {
        let s = chars_of(format);
        let mut segments: Vec<Segment> = Vec::new();
        let mut i: usize = 0;
        assert(s@.skip(0) =~= s@);
        assert(forall|t: Seq<Segment>| segments@ + t =~= t);
        while i < s.len()
            invariant
                s@ == format@,
                i <= s.len(),
                parse_format(format@) == match parse_format(s@.skip(i as int)) {
                    Some(t) => Some(segments@ + t),
                    None => None::<Seq<Segment>>,
                },
            decreases s.len() - i,
        {
            let ghost rest = s@.skip(i as int);
            let c = s[i];
            assert(rest[0] == c);
            if c == '{' {
                proof {
                    reveal_strlit("{average}");
                    reveal_strlit("{min}");
                    reveal_strlit("{max}");
                    assert("{average}"@ =~= average_tag());
                    assert("{min}"@ =~= min_tag());
                    assert("{max}"@ =~= max_tag());
                }
                let (seg, len) = if tag_at(&s, i, "{average}") {
                    (Segment::Average, 9)
                } else if tag_at(&s, i, "{min}") {
                    (Segment::Min, 5)
                } else if tag_at(&s, i, "{max}") {
                    (Segment::Max, 5)
                } else {
                    assert(parse_format(rest) is None);
                    return Err(FormatError { position: i });
                };
                let ghost before = segments@;
                assert(rest.skip(len as int) =~= s@.skip(i + len));
                segments.push(seg);
                i = i + len;
                proof {
                    match parse_format(s@.skip(i as int)) {
                        Some(t) => {
                            lemma_push_concat(before, seg, t);
                        },
                        None => {},
                    }
                }
            } else if c == '}' {
                assert(parse_format(rest) is None);
                return Err(FormatError { position: i });
            } else {
                let ghost before = segments@;
                assert(rest.skip(1) =~= s@.skip(i + 1));
                segments.push(Segment::Literal(c));
                i = i + 1;
                proof {
                    match parse_format(s@.skip(i as int)) {
                        Some(t) => {
                            lemma_push_concat(before, Segment::Literal(c), t);
                        },
                        None => {},
                    }
                }
            }
        }
        assert(s@.skip(i as int) =~= Seq::<char>::empty());
        assert(segments@ + Seq::<Segment>::empty() =~= segments@);
        Ok(FormatTemplate { segments })
    }

    /// Puts the values into the compiled format.
    pub fn render(&self, v: Values) -> (r: String)
        ensures
            r@ == rendered(self@, v),
    {
        let mut out = String::new();
        let mut i: usize = 0;
        assert(self@.take(0) =~= Seq::<Segment>::empty());
        while i < self.segments.len()
            invariant
                i <= self.segments.len(),
                out@ == rendered(self@.take(i as int), v),
            decreases self.segments.len() - i,
        {
            let seg = self.segments[i];
            match seg {
                Segment::Literal(c) => out.push(c),
                Segment::Average => push_decimal(&mut out, v.average),
                Segment::Min => push_decimal(&mut out, v.min),
                Segment::Max => push_decimal(&mut out, v.max),
            }
            assert(self@.take(i + 1).drop_last() =~= self@.take(i as int));
            i = i + 1;
        }
        assert(self@.take(i as int) =~= self@);
        out
    }
}


} // verus!
