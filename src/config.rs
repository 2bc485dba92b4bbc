use vstd::prelude::*;
use vstd::std_specs::iter::IteratorSpec;
use vstd::string::{axiom_spec_iter, next_postcondition};

verus! {

/// Whether `c` has Unicode's White_Space property.
pub uninterp spec fn white_space(c: char) -> bool;

/// Relies on char::is_whitespace: true exactly for characters with the
/// White_Space property.
#[verifier::external_body]
fn is_white_space(c: char) -> (r: bool)
    ensures
        r == white_space(c),
{
    c.is_whitespace()
}

/// `s` without its leading white space.
pub open spec fn trim_start(s: Seq<char>) -> Seq<char>
    decreases s.len(),
{
    if s.len() > 0 && white_space(s[0]) {
        trim_start(s.drop_first())
    } else {
        s
    }
}

/// `s` without its trailing white space.
pub open spec fn trim_end(s: Seq<char>) -> Seq<char>
    decreases s.len(),
{
    if s.len() > 0 && white_space(s.last()) {
        trim_end(s.drop_last())
    } else {
        s
    }
}

pub open spec fn trim(s: Seq<char>) -> Seq<char> {
    trim_end(trim_start(s))
}

/// The index of the first line feed at or after `from`, or the length of `s`
/// where there is none.
pub open spec fn line_end(s: Seq<char>, from: int) -> int
    decreases s.len() - from,
{
    if from >= s.len() {
        s.len() as int
    } else if s[from] == '\n' {
        from
    } else {
        line_end(s, from + 1)
    }
}

/// A line that a line feed ended loses the carriage return before it.
pub open spec fn strip_cr(t: Seq<char>) -> Seq<char> {
    if t.len() > 0 && t.last() == '\r' {
        t.drop_last()
    } else {
        t
    }
}

/// The text has a second line: something follows its first line feed.
pub open spec fn has_two_lines(s: Seq<char>) -> bool {
    line_end(s, 0) + 1 < s.len()
}

pub open spec fn first_line(s: Seq<char>) -> Seq<char> {
    strip_cr(s.subrange(0, line_end(s, 0)))
}

pub open spec fn second_line(s: Seq<char>) -> Seq<char> {
    let i = line_end(s, 0);
    let j = line_end(s, i + 1);
    if j < s.len() {
        strip_cr(s.subrange(i + 1, j))
    } else {
        s.subrange(i + 1, s.len() as int)
    }
}

pub open spec fn is_digit(c: char) -> bool {
    '0' <= c && c <= '9'
}

/// The value of a string of decimal digits.
pub open spec fn digits_value(d: Seq<char>) -> nat
    decreases d.len(),
{
    if d.len() == 0 {
        0
    } else {
        digits_value(d.drop_last()) * 10 + (d.last() as nat - '0' as nat) as nat
    }
}

/// The digits of an unsigned number, after an optional plus sign.
pub open spec fn unsigned_digits(s: Seq<char>) -> Seq<char> {
    if s.len() > 0 && s[0] == '+' {
        s.drop_first()
    } else {
        s
    }
}

/// A port number: an optional `+`, then one or more decimal digits whose
/// value fits in 16 bits. Nothing else, not even white space, is allowed.
pub open spec fn port_of(s: Seq<char>) -> Option<u16> {
    let d = unsigned_digits(s);
    if d.len() > 0 && (forall|i: int| 0 <= i < d.len() ==> is_digit(#[trigger] d[i]))
        && digits_value(d) <= 65535 {
        Some(digits_value(d) as u16)
    } else {
        None
    }
}

/// What the two lines of a server configuration hold: the host line without
/// surrounding white space, and the port if the second line is one.
pub struct ConfigFields {
    pub host: Vec<char>,
    pub port: Option<u16>,
}

#[derive(Debug, Clone, Copy, PartialEq, Eq, Structural)]
pub enum ConfigError {
    /// The text has fewer than two lines.
    NotEnoughLines,
}

impl ConfigError {
    pub fn message(&self) -> (r: &'static str)
        ensures
            r@ == "Not enough data to construct the Config"@,
    {
        "Not enough data to construct the Config"
    }
}

fn chars_of(s: &str) -> (r: Vec<char>)
    ensures
        r@ == s@,
{
    broadcast use {axiom_spec_iter, next_postcondition};

    let mut it = s.chars();
    let mut out: Vec<char> = Vec::new();
    loop
        invariant
            it.obeys_prophetic_iter_laws(),
            it.decrease() is Some,
            out@ + it.remaining() == s@,
        ensures
            out@ == s@,
        decreases it.decrease()->0,
    {
        let ghost before = it.remaining();
        match it.next() {
            Some(c) => {
                out.push(c);
                assert(out@ + it.remaining() =~= s@) by {
                    assert(before =~= seq![c] + it.remaining());
                }
            },
            None => {
                assert(out@ =~= s@);
                break;
            },
        }
    }
    out
}

fn find_line_end(v: &Vec<char>, from: usize) -> (r: usize)
    requires
        from <= v@.len(),
    ensures
        r == line_end(v@, from as int),
        from <= r <= v@.len(),
{
    let mut i: usize = from;
    while i < v.len() && v[i] != '\n'
        invariant
            from <= i <= v@.len(),
            line_end(v@, from as int) == line_end(v@, i as int),
        decreases v@.len() - i,
    {
        i = i + 1;
    }
    i
}

/// The end of the range `a..b` once a carriage return that closes it is cut.
fn cut_cr(v: &Vec<char>, a: usize, b: usize) -> (r: usize)
    requires
        a <= b <= v@.len(),
    ensures
        a <= r <= b,
        v@.subrange(a as int, r as int) == strip_cr(v@.subrange(a as int, b as int)),
{
    if b > a && v[b - 1] == '\r' {
        assert(v@.subrange(a as int, b - 1) =~= v@.subrange(a as int, b as int).drop_last());
        b - 1
    } else {
        b
    }
}

/// The bounds of the range `a..b` once white space on both ends is cut.
fn trim_bounds(v: &Vec<char>, a: usize, b: usize) -> (r: (usize, usize))
    requires
        a <= b <= v@.len(),
    ensures
        a <= r.0 <= r.1 <= b,
        v@.subrange(r.0 as int, r.1 as int) == trim(v@.subrange(a as int, b as int)),
{
    let mut i: usize = a;
    while i < b && is_white_space(v[i])
        invariant
            a <= i <= b <= v@.len(),
            trim_start(v@.subrange(a as int, b as int)) == trim_start(v@.subrange(i as int, b as int)),
        decreases b - i,
    {
        assert(v@.subrange(i as int, b as int).drop_first() =~= v@.subrange(i + 1, b as int));
        i = i + 1;
    }
    assert(trim_start(v@.subrange(a as int, b as int)) == v@.subrange(i as int, b as int));
    let mut j: usize = b;
    while j > i && is_white_space(v[j - 1])
        invariant
            a <= i <= j <= b <= v@.len(),
            trim(v@.subrange(a as int, b as int)) == trim_end(v@.subrange(i as int, j as int)),
        decreases j - i,
    {
        assert(v@.subrange(i as int, j as int).drop_last() =~= v@.subrange(i as int, j - 1));
        j = j - 1;
    }
    (i, j)
}

fn copy_range(v: &Vec<char>, a: usize, b: usize) -> (r: Vec<char>)
    requires
        a <= b <= v@.len(),
    ensures
        r@ == v@.subrange(a as int, b as int),
{
    let mut out: Vec<char> = Vec::new();
    let mut i: usize = a;
    while i < b
        invariant
            a <= i <= b <= v@.len(),
            out@ == v@.subrange(a as int, i as int),
        decreases b - i,
    {
        out.push(v[i]);
        i = i + 1;
        assert(out@ =~= v@.subrange(a as int, i as int));
    }
    out
}

proof fn lemma_prefix_value_le(d: Seq<char>, m: int)
    requires
        0 <= m <= d.len(),
        forall|i: int| 0 <= i < d.len() ==> is_digit(#[trigger] d[i]),
    ensures
        digits_value(d.subrange(0, m)) <= digits_value(d),
    decreases d.len(),
{
    if m < d.len() {
        lemma_prefix_value_le(d.drop_last(), m);
        assert(d.drop_last().subrange(0, m) =~= d.subrange(0, m));
    } else {
        assert(d.subrange(0, m) =~= d);
    }
}

fn parse_port(v: &Vec<char>, a: usize, b: usize) -> (r: Option<u16>)
    requires
        a <= b <= v@.len(),
    ensures
        r == port_of(v@.subrange(a as int, b as int)),
{
    let ghost s = v@.subrange(a as int, b as int);
    let mut i: usize = a;
    if i < b && v[i] == '+' {
        i = i + 1;
    }
    let ghost d = v@.subrange(i as int, b as int);
    assert(d =~= unsigned_digits(s));
    if i == b {
        return None;
    }
    let mut value: u32 = 0;
    let mut k: usize = i;
    while k < b
        invariant
            a <= i < b <= v@.len(),
            i <= k <= b,
            s == v@.subrange(a as int, b as int),
            d == v@.subrange(i as int, b as int),
            d == unsigned_digits(s),
            forall|m: int| i <= m < k ==> is_digit(#[trigger] v@[m]),
            value == digits_value(v@.subrange(i as int, k as int)),
            value <= 65535,
        decreases b - k,
    {
        let c = v[k];
        if !('0' <= c && c <= '9') {
            assert(!is_digit(d[k - i]));
            return None;
        }
        value = value * 10 + (c as u32 - '0' as u32);
        assert(v@.subrange(i as int, k + 1).drop_last() =~= v@.subrange(i as int, k as int));
        k = k + 1;
        if value > 65535 {
            proof {
                if forall|m: int| 0 <= m < d.len() ==> is_digit(#[trigger] d[m]) {
                    lemma_prefix_value_le(d, k - i);
                    assert(d.subrange(0, k - i) =~= v@.subrange(i as int, k as int));
                }
            }
            return None;
        }
    }
    assert(v@.subrange(i as int, k as int) =~= d);
    assert forall|m: int| 0 <= m < d.len() implies is_digit(#[trigger] d[m]) by {
        assert(d[m] == v@[i + m]);
    }
    Some(value as u16)
}

/// Splits the text of a server configuration: its first line, without
/// surrounding white space, names the host, and its second line is the
/// port. Text of fewer than two lines is refused. Lines end at a line feed,
/// and a carriage return just before one belongs to the line ending.
pub fn read_config(data: &str) -> (r: Result<ConfigFields, ConfigError>)
    ensures
        r is Err <==> !has_two_lines(data@),
        r is Err ==> r == Err::<ConfigFields, ConfigError>(ConfigError::NotEnoughLines),
        r matches Ok(f) ==> {
            &&& f.host@ == trim(first_line(data@))
            &&& f.port == port_of(second_line(data@))
        },
{
    let v = chars_of(data);
    let n = v.len();
    let i = find_line_end(&v, 0);
    if i >= n || i + 1 >= n {
        return Err(ConfigError::NotEnoughLines);
    }
    let first_end = cut_cr(&v, 0, i);
    let (host_start, host_end) = trim_bounds(&v, 0, first_end);
    let host = copy_range(&v, host_start, host_end);
    let j = find_line_end(&v, i + 1);
    let second_end = if j < n {
        cut_cr(&v, i + 1, j)
    } else {
        j
    };
    let port = parse_port(&v, i + 1, second_end);
    Ok(ConfigFields { host, port })
}

} // verus!
