//! Text as sequences of characters.

use vstd::prelude::*;

verus! {

/// `String::push` appends the character to the end of the string.
pub assume_specification[ String::push ](s: &mut String, c: char)
    ensures
        final(s)@ == old(s)@.push(c),
;

/// The characters that carry the Unicode `White_Space` property.
pub open spec fn is_space(c: char) -> bool {
    let u = c as u32;
    ||| 0x9 <= u <= 0xd
    ||| u == 0x20
    ||| u == 0x85
    ||| u == 0xa0
    ||| u == 0x1680
    ||| 0x2000 <= u <= 0x200a
    ||| u == 0x2028
    ||| u == 0x2029
    ||| u == 0x202f
    ||| u == 0x205f
    ||| u == 0x3000
}

pub fn is_whitespace(c: char) -> (r: bool)
    ensures
        r == is_space(c),
{
    let u: u32 = c as u32;
    (0x9 <= u && u <= 0xd) || u == 0x20 || u == 0x85 || u == 0xa0 || u == 0x1680 || (0x2000 <= u
        && u <= 0x200a) || u == 0x2028 || u == 0x2029 || u == 0x202f || u == 0x205f || u == 0x3000
}

/// The characters of `s`, in order.
pub fn chars_of(s: &str) -> (r: Vec<char>)
    ensures
        r@ == s@,
{
    let mut out: Vec<char> = Vec::new();
    for c in it: s.chars()
        invariant
            out@ == it.seq().take(it.index() as int),
            it.seq() == s@,
    {
        out.push(c);
    }
    out
}

/// The string made of the characters `cs[from..to]`.
pub fn string_of_range(cs: &[char], from: usize, to: usize) -> (r: String)
    requires
        from <= to <= cs@.len(),
    ensures
        r@ == cs@.subrange(from as int, to as int),
{
    let mut out = String::new();
    let mut i: usize = from;
    while i < to
        invariant
            from <= i <= to <= cs@.len(),
            out@ == cs@.subrange(from as int, i as int),
        decreases to - i,
    {
        out.push(cs[i]);
        proof {
            assert(cs@.subrange(from as int, i as int).push(cs@[i as int]) =~= cs@.subrange(
                from as int,
                i + 1,
            ));
        }
        i = i + 1;
    }
    out
}


/// The string made of the characters `cs`.
pub fn string_of(cs: &[char]) -> (r: String)
    ensures
        r@ == cs@,
{
    let r = string_of_range(cs, 0, cs.len());
    assert(cs@.subrange(0, cs@.len() as int) =~= cs@);
    r
}

/// The character sequences that `v` holds.
pub open spec fn views(v: Seq<String>) -> Seq<Seq<char>> {
    v.map_values(|s: String| s@)
}

/// The character sequence that `o` holds, if any.
pub open spec fn opt_view(o: Option<String>) -> Option<Seq<char>> {
    match o {
        Some(s) => Some(s@),
        None => None,
    }
}

/// The text `a` with `b` behind it.
pub fn glue(a: &str, b: &str) -> (r: String)
    ensures
        r@ == a@ + b@,
{
    let mut r = a.to_owned();
    r.append(b);
    r
}

/// Two texts are equal when their characters are.
pub fn text_eq(a: &str, b: &str) -> (r: bool)
    ensures
        r == (a@ == b@),
{
    let x = a.as_bytes();
    let y = b.as_bytes();
    proof {
        vstd::utf8::encode_utf8_decode_utf8(a@);
        vstd::utf8::encode_utf8_decode_utf8(b@);
    }
    if x.len() != y.len() {
        return false;
    }
    let mut i: usize = 0;
    while i < x.len()
        invariant
            i <= x@.len(),
            x@.len() == y@.len(),
            forall|j: int| 0 <= j < i ==> x@[j] == y@[j],
            x@ == vstd::utf8::encode_utf8(a@),
            y@ == vstd::utf8::encode_utf8(b@),
        decreases x@.len() - i,
    {
        if x[i] != y[i] {
            return false;
        }
        i = i + 1;
    }
    assert(x@ =~= y@);
    true
}

/// Whether `list` holds the text `s`.
pub fn text_in(list: &Vec<String>, s: &str) -> (r: bool)
    ensures
        r == views(list@).contains(s@),
{
    let mut i: usize = 0;
    while i < list.len()
        invariant
            i <= list@.len(),
            forall|j: int| 0 <= j < i ==> views(list@)[j] != s@,
        decreases list@.len() - i,
    {
        if text_eq(list[i].as_str(), s) {
            assert(views(list@)[i as int] == s@);
            return true;
        }
        i = i + 1;
    }
    false
}

/// Whether `prefix` begins `s`.
pub fn starts_with(s: &str, prefix: &str) -> (r: bool)
    ensures
        r == prefix@.is_prefix_of(s@),
{
    let a = chars_of(s);
    let p = chars_of(prefix);
    starts_with_chars(a.as_slice(), 0, p.as_slice())
}

/// Whether `prefix` begins the part of `a` that starts at `from`.
pub fn starts_with_chars(a: &[char], from: usize, prefix: &[char]) -> (r: bool)
    requires
        from <= a@.len(),
    ensures
        r == prefix@.is_prefix_of(a@.skip(from as int)),
{
    let n: usize = a.len();
    if n - from < prefix.len() {
        return false;
    }
    let mut i: usize = 0;
    while i < prefix.len()
        invariant
            i <= prefix@.len(),
            n == a@.len(),
            from <= a@.len(),
            prefix@.len() <= a@.len() - from,
            forall|j: int| 0 <= j < i ==> prefix@[j] == a@[from + j],
        decreases prefix@.len() - i,
    {
        if a[from + i] != prefix[i] {
            assert(a@.skip(from as int)[i as int] != prefix@[i as int]);
            return false;
        }
        i = i + 1;
    }
    assert(prefix@ =~= a@.skip(from as int).take(prefix@.len() as int));
    true
}

/// `s` without the white space at its start.
pub open spec fn trim_start(s: Seq<char>) -> Seq<char>
    decreases s.len(),
{
    if s.len() > 0 && is_space(s[0]) {
        trim_start(s.drop_first())
    } else {
        s
    }
}

/// `s` without the white space at its end.
pub open spec fn trim_end(s: Seq<char>) -> Seq<char>
    decreases s.len(),
{
    if s.len() > 0 && is_space(s.last()) {
        trim_end(s.drop_last())
    } else {
        s
    }
}

/// `s` without the white space at either end.
pub open spec fn trimmed(s: Seq<char>) -> Seq<char> {
    trim_end(trim_start(s))
}

/// The index after the white space that begins `cs`.
pub fn start_of_text(cs: &[char]) -> (lo: usize)
    ensures
        lo <= cs@.len(),
        trim_start(cs@) == cs@.skip(lo as int),
{
    let mut lo: usize = 0;
    assert(cs@.skip(0) =~= cs@);
    while lo < cs.len() && is_whitespace(cs[lo])
        invariant
            lo <= cs@.len(),
            trim_start(cs@) == trim_start(cs@.skip(lo as int)),
        decreases cs@.len() - lo,
    {
        assert(cs@.skip(lo as int).drop_first() =~= cs@.skip(lo + 1));
        lo = lo + 1;
    }
    lo
}

/// The index before the white space that ends `cs[lo..]`.
pub fn end_of_text(cs: &[char], lo: usize) -> (hi: usize)
    requires
        lo <= cs@.len(),
    ensures
        lo <= hi <= cs@.len(),
        trim_end(cs@.skip(lo as int)) == cs@.subrange(lo as int, hi as int),
{
    let mut hi: usize = cs.len();
    assert(cs@.subrange(lo as int, hi as int) =~= cs@.skip(lo as int));
    while hi > lo && is_whitespace(cs[hi - 1])
        invariant
            lo <= hi <= cs@.len(),
            trim_end(cs@.skip(lo as int)) == trim_end(cs@.subrange(lo as int, hi as int)),
        decreases hi,
    {
        assert(cs@.subrange(lo as int, hi as int).drop_last() =~= cs@.subrange(
            lo as int,
            hi - 1,
        ));
        hi = hi - 1;
    }
    hi
}

/// `s` without the white space at either end.
pub fn trim(s: &str) -> (r: String)
    ensures
        r@ == trimmed(s@),
{
    let cs = chars_of(s);
    let lo = start_of_text(cs.as_slice());
    let hi = end_of_text(cs.as_slice(), lo);
    string_of_range(cs.as_slice(), lo, hi)
}

/// `s` without the white space at its end.
pub fn trim_end_of(s: &str) -> (r: String)
    ensures
        r@ == trim_end(s@),
{
    let cs = chars_of(s);
    let hi = end_of_text(cs.as_slice(), 0);
    assert(cs@.skip(0) =~= cs@);
    string_of_range(cs.as_slice(), 0, hi)
}

/// Whether `s` holds nothing but white space.
pub fn is_blank(s: &str) -> (r: bool)
    ensures
        r == (trimmed(s@).len() == 0),
{
    trim(s).as_str().is_empty()
}

/// The index of the first `c` in `s`, or the length of `s`.
pub open spec fn position(s: Seq<char>, c: char) -> nat
    decreases s.len(),
{
    if s.len() == 0 {
        0
    } else if s[0] == c {
        0
    } else {
        1 + position(s.drop_first(), c)
    }
}

pub proof fn lemma_position(s: Seq<char>, c: char)
    ensures
        position(s, c) <= s.len(),
        position(s, c) < s.len() ==> s[position(s, c) as int] == c,
        forall|i: int| 0 <= i < position(s, c) ==> s[i] != c,
    decreases s.len(),
{
    if s.len() > 0 && s[0] != c {
        lemma_position(s.drop_first(), c);
        assert forall|i: int| 0 <= i < position(s, c) implies s[i] != c by {
            if i > 0 {
                assert(s.drop_first()[i - 1] != c);
            }
        }
    }
}

/// The first `c` is the one with no `c` before it.
pub proof fn lemma_position_unique(s: Seq<char>, c: char, p: int)
    requires
        0 <= p <= s.len(),
        p < s.len() ==> s[p] == c,
        forall|i: int| 0 <= i < p ==> s[i] != c,
    ensures
        position(s, c) == p,
{
    lemma_position(s, c);
}

/// The index of the first `c` in `cs[from..]`, or the length of `cs`.
pub fn find_char(cs: &[char], from: usize, c: char) -> (p: usize)
    requires
        from <= cs@.len(),
    ensures
        from <= p <= cs@.len(),
        p - from == position(cs@.skip(from as int), c),
{
    let mut p: usize = from;
    while p < cs.len() && cs[p] != c
        invariant
            from <= p <= cs@.len(),
            forall|i: int| from <= i < p ==> cs@[i] != c,
        decreases cs@.len() - p,
    {
        p = p + 1;
    }
    proof {
        lemma_position_unique(cs@.skip(from as int), c, p - from);
    }
    p
}

/// `s` without the carriage return that ends it.
pub open spec fn strip_cr(s: Seq<char>) -> Seq<char> {
    if s.len() > 0 && s.last() == '\r' {
        s.drop_last()
    } else {
        s
    }
}

/// The lines of `s`. A line ends with a line feed, which may follow a carriage return; neither
/// belongs to the line. What stands after the last line feed is a line when it is not empty.
pub open spec fn lines_of(s: Seq<char>) -> Seq<Seq<char>>
    decreases s.len(),
{
    if s.len() == 0 {
        seq![]
    } else {
        let p = position(s, '\n');
        if p >= s.len() {
            seq![s]
        } else {
            seq![strip_cr(s.take(p as int))] + lines_of(s.skip(p as int + 1))
        }
    }
}

/// The lines of `s`.
pub fn lines(s: &str) -> (r: Vec<String>)
    ensures
        views(r@) == lines_of(s@),
{
    let cs = chars_of(s);
    let mut out: Vec<String> = Vec::new();
    let mut start: usize = 0;
    assert(cs@.skip(0) =~= cs@);
    assert(views(out@) + lines_of(cs@.skip(0)) =~= lines_of(cs@));
    while start < cs.len()
        invariant
            start <= cs@.len(),
            cs@ == s@,
            views(out@) + lines_of(cs@.skip(start as int)) == lines_of(cs@),
        decreases cs@.len() - start,
    {
        let ghost rest = cs@.skip(start as int);
        let ghost before = out@;
        let p = find_char(cs.as_slice(), start, '\n');
        if p >= cs.len() {
            out.push(string_of_range(cs.as_slice(), start, cs.len()));
            proof {
                assert(cs@.subrange(start as int, cs@.len() as int) =~= rest);
                assert(cs@.skip(cs@.len() as int) =~= seq![]);
                assert(views(out@) =~= views(before) + seq![rest]);
                assert(views(out@) + lines_of(cs@.skip(cs@.len() as int)) =~= views(before)
                    + lines_of(rest));
            }
            start = cs.len();
        } else {
            let mut end: usize = p;
            if end > start && cs[end - 1] == '\r' {
                end = end - 1;
            }
            let line = string_of_range(cs.as_slice(), start, end);
            proof {
                assert(line@ =~= strip_cr(rest.take(p - start)));
                assert(rest.skip(p - start + 1) =~= cs@.skip(p + 1));
                assert(lines_of(rest) == seq![line@] + lines_of(cs@.skip(p + 1)));
            }
            out.push(line);
            proof {
                assert(views(out@) =~= views(before) + seq![line@]);
                assert(views(out@) + lines_of(cs@.skip(p + 1)) =~= views(before) + lines_of(rest));
            }
            start = p + 1;
        }
    }
    assert(cs@.skip(cs@.len() as int) =~= seq![]);
    assert(views(out@) + lines_of(cs@.skip(start as int)) =~= views(out@));
    out
}

/// The pieces of `s` between the occurrences of `c`.
pub open spec fn pieces_of(s: Seq<char>, c: char) -> Seq<Seq<char>>
    decreases s.len(),
{
    let p = position(s, c);
    if p >= s.len() {
        seq![s]
    } else {
        seq![s.take(p as int)] + pieces_of(s.skip(p as int + 1), c)
    }
}

/// The pieces of `s` between the occurrences of `c`.
pub fn pieces(s: &str, c: char) -> (r: Vec<String>)
    ensures
        views(r@) == pieces_of(s@, c),
{
    let cs = chars_of(s);
    let mut out: Vec<String> = Vec::new();
    let mut start: usize = 0;
    assert(cs@.skip(0) =~= cs@);
    assert(views(out@) + pieces_of(cs@.skip(0), c) =~= pieces_of(cs@, c));
    loop
        invariant
            start <= cs@.len(),
            cs@ == s@,
            views(out@) + pieces_of(cs@.skip(start as int), c) == pieces_of(cs@, c),
        decreases cs@.len() - start,
    {
        let ghost rest = cs@.skip(start as int);
        let ghost before = out@;
        let p = find_char(cs.as_slice(), start, c);
        let piece = string_of_range(cs.as_slice(), start, p);
        if p >= cs.len() {
            proof {
                assert(piece@ =~= rest);
            }
            out.push(piece);
            assert(views(out@) =~= views(before) + seq![rest]);
            return out;
        }
        proof {
            assert(piece@ =~= rest.take(p - start));
            assert(rest.skip(p - start + 1) =~= cs@.skip(p + 1));
        }
        out.push(piece);
        proof {
            assert(views(out@) =~= views(before) + seq![piece@]);
            assert(views(out@) + pieces_of(cs@.skip(p + 1), c) =~= views(before) + pieces_of(
                rest,
                c,
            ));
        }
        start = p + 1;
    }
}

/// The index at which `pat` first stands in `s`, if it stands there at all.
pub open spec fn find_text(s: Seq<char>, pat: Seq<char>) -> Option<int>
    decreases s.len(),
{
    if pat.is_prefix_of(s) {
        Some(0)
    } else if s.len() == 0 {
        None
    } else {
        match find_text(s.drop_first(), pat) {
            Some(i) => Some(i + 1),
            None => None,
        }
    }
}

/// The index at which `pat` first stands in `cs`.
pub fn find_str(cs: &[char], pat: &[char]) -> (r: Option<usize>)
    ensures
        match r {
            Some(i) => find_text(cs@, pat@) == Some(i as int) && i + pat@.len() <= cs@.len(),
            None => find_text(cs@, pat@) is None,
        },
{
    let mut i: usize = 0;
    assert(cs@.skip(0) =~= cs@);
    loop
        invariant
            i <= cs@.len(),
            find_text(cs@, pat@) == (match find_text(cs@.skip(i as int), pat@) {
                Some(k) => Some(k + i),
                None => None,
            }),
        decreases cs@.len() - i,
    {
        if starts_with_chars(cs, i, pat) {
            return Some(i);
        }
        if i >= cs.len() {
            return None;
        }
        assert(cs@.skip(i as int).drop_first() =~= cs@.skip(i + 1));
        i = i + 1;
    }
}

/// The decimal digit of value `d`.
pub open spec fn digit_char(d: int) -> char {
    (('0' as u32) + d) as char
}

/// `n` in decimal digits.
pub open spec fn decimal(n: nat) -> Seq<char>
    decreases n,
{
    if n < 10 {
        seq![digit_char(n as int)]
    } else {
        decimal(n / 10).push(digit_char((n % 10) as int))
    }
}

/// `n` in decimal digits, with a sign when it is negative.
pub open spec fn signed_decimal(n: int) -> Seq<char> {
    if n < 0 {
        seq!['-'] + decimal((-n) as nat)
    } else {
        decimal(n as nat)
    }
}

fn digit_of(d: u128) -> (c: char)
    requires
        d < 10,
    ensures
        c == digit_char(d as int),
{
    let b: u8 = 48 + d as u8;
    b as char
}

/// `n` in decimal digits.
pub fn decimal_of(n: u128) -> (r: String)
    ensures
        r@ == decimal(n as nat),
    decreases n,
{
    if n < 10 {
        let mut s = String::new();
        s.push(digit_of(n));
        assert(s@ =~= seq![digit_char(n as int)]);
        s
    } else {
        let mut s = decimal_of(n / 10);
        s.push(digit_of(n % 10));
        s
    }
}

/// `n` in decimal digits, with a sign when it is negative.
pub fn signed_decimal_of(n: i64) -> (r: String)
    ensures
        r@ == signed_decimal(n as int),
{
    if n < 0 {
        let mut s = String::new();
        s.push('-');
        let m: u64 = if n == i64::MIN {
            0x8000_0000_0000_0000
        } else {
            (-n) as u64
        };
        let d = decimal_of(m as u128);
        s.append(d.as_str());
        assert(s@ =~= seq!['-'] + decimal((-n) as nat));
        s
    } else {
        decimal_of(n as u128)
    }
}

/// Whether `c` is one of the ten decimal digits of ASCII.
pub open spec fn is_digit(c: char) -> bool {
    '0' <= c <= '9'
}

/// Whether `s` is made of ASCII digits alone.
pub open spec fn all_digits(s: Seq<char>) -> bool {
    forall|i: int| 0 <= i < s.len() ==> is_digit(#[trigger] s[i])
}

/// The number that the digits `s` write.
pub open spec fn digits_value(s: Seq<char>) -> nat
    decreases s.len(),
{
    if s.len() == 0 {
        0
    } else {
        10 * digits_value(s.drop_last()) + ((s.last() as u32) - ('0' as u32)) as nat
    }
}

/// The number that `s` writes: one or more digits with an optional plus sign, at most `max`.
pub open spec fn unsigned_value(s: Seq<char>, max: nat) -> Option<nat> {
    let digits = if s.len() > 0 && s[0] == '+' {
        s.drop_first()
    } else {
        s
    };
    if digits.len() > 0 && all_digits(digits) && digits_value(digits) <= max {
        Some(digits_value(digits))
    } else {
        None
    }
}

proof fn lemma_digits_value_grows(s: Seq<char>, k: int)
    requires
        0 <= k <= s.len(),
        all_digits(s),
    ensures
        digits_value(s.take(k)) <= digits_value(s),
    decreases s.len(),
{
    if k == s.len() {
        assert(s.take(k) =~= s);
    } else {
        assert(s.drop_last().take(k) =~= s.take(k));
        lemma_digits_value_grows(s.drop_last(), k);
    }
}

/// The number that `s` writes, when it is at most `max`.
pub fn parse_unsigned(s: &str, max: u64) -> (r: Option<u64>)
    ensures
        match r {
            Some(n) => unsigned_value(s@, max as nat) == Some(n as nat),
            None => unsigned_value(s@, max as nat) is None,
        },
{
    let cs = chars_of(s);
    let from: usize = if cs.len() > 0 && cs[0] == '+' {
        1
    } else {
        0
    };
    let ghost digits = cs@.skip(from as int);
    proof {
        if from == 1 {
            assert(digits =~= s@.drop_first());
        } else {
            assert(digits =~= s@);
        }
    }
    if cs.len() == from {
        return None;
    }
    let mut value: u64 = 0;
    let mut i: usize = from;
    assert(digits.take(0) =~= seq![]);
    while i < cs.len()
        invariant
            from <= i <= cs@.len(),
            from <= 1,
            from == 1 ==> s@.len() > 0 && s@[0] == '+',
            digits == cs@.skip(from as int),
            digits == (if s@.len() > 0 && s@[0] == '+' {
                s@.drop_first()
            } else {
                s@
            }),
            all_digits(digits.take(i - from)),
            value == digits_value(digits.take(i - from)),
            value <= max,
        decreases cs@.len() - i,
    {
        let c = cs[i];
        if !(c >= '0' && c <= '9') {
            assert(!is_digit(digits[i - from]));
            return None;
        }
        let d: u64 = (c as u32 - 48) as u64;
        proof {
            let next = digits.take(i - from + 1);
            assert(next.drop_last() =~= digits.take(i - from));
            assert(next.last() == c);
            assert(all_digits(next)) by {
                assert forall|j: int| 0 <= j < next.len() implies is_digit(#[trigger] next[j]) by {
                    if j < i - from {
                        assert(digits.take(i - from)[j] == next[j]);
                    }
                }
            }
            assert(digits_value(next) == 10 * value + d);
            if 10 * value + d > max {
                if all_digits(digits) {
                    lemma_digits_value_grows(digits, i - from + 1);
                }
            }
        }
        if value > max / 10 || d > max - 10 * value {
            assert(10 * value + d > max);
            return None;
        }
        value = 10 * value + d;
        i = i + 1;
    }
    assert(digits.take(i - from) =~= digits);
    Some(value)
}

/// Whether `a` comes before `b`: at the first character in which they differ `a` has the lower
/// code point, or `a` is a proper prefix of `b`.
pub open spec fn precedes(a: Seq<char>, b: Seq<char>) -> bool
    decreases a.len(),
{
    if b.len() == 0 {
        false
    } else if a.len() == 0 {
        true
    } else if a[0] != b[0] {
        a[0] < b[0]
    } else {
        precedes(a.drop_first(), b.drop_first())
    }
}

/// Whether `a` comes before `b`.
pub fn text_before(a: &str, b: &str) -> (r: bool)
    ensures
        r == precedes(a@, b@),
{
    let x = chars_of(a);
    let y = chars_of(b);
    let mut i: usize = 0;
    assert(x@.skip(0) =~= x@);
    assert(y@.skip(0) =~= y@);
    while i < x.len() && i < y.len() && x[i] == y[i]
        invariant
            i <= x@.len(),
            i <= y@.len(),
            precedes(x@, y@) == precedes(x@.skip(i as int), y@.skip(i as int)),
        decreases x@.len() - i,
    {
        assert(x@.skip(i as int).drop_first() =~= x@.skip(i + 1));
        assert(y@.skip(i as int).drop_first() =~= y@.skip(i + 1));
        i = i + 1;
    }
    if i >= y.len() {
        false
    } else if i >= x.len() {
        true
    } else {
        x[i] < y[i]
    }
}

/// Of two texts one comes before the other, or they are equal, and no two of these hold at once.
pub proof fn lemma_precedes_total(a: Seq<char>, b: Seq<char>)
    ensures
        precedes(a, b) || precedes(b, a) || a == b,
        !(precedes(a, b) && precedes(b, a)),
        a == b ==> !precedes(a, b),
    decreases a.len(),
{
    if a.len() > 0 && b.len() > 0 && a[0] == b[0] {
        lemma_precedes_total(a.drop_first(), b.drop_first());
        if a.drop_first() == b.drop_first() {
            assert(a =~= seq![a[0]] + a.drop_first());
            assert(b =~= seq![b[0]] + b.drop_first());
        }
    } else if a.len() == 0 && b.len() == 0 {
        assert(a =~= b);
    }
}

/// The number of bytes that UTF-8 takes for `c`.
pub open spec fn char_bytes(c: char) -> nat {
    let u = c as u32;
    if u < 0x80 {
        1
    } else if u < 0x800 {
        2
    } else if u < 0x10000 {
        3
    } else {
        4
    }
}

/// The number of bytes that UTF-8 takes for `s`.
pub open spec fn byte_len(s: Seq<char>) -> nat
    decreases s.len(),
{
    if s.len() == 0 {
        0
    } else {
        byte_len(s.drop_last()) + char_bytes(s.last())
    }
}

/// Bytes add up over a concatenation.
pub proof fn lemma_byte_len_add(a: Seq<char>, b: Seq<char>)
    ensures
        byte_len(a + b) == byte_len(a) + byte_len(b),
    decreases b.len(),
{
    if b.len() == 0 {
        assert(a + b =~= a);
    } else {
        assert((a + b).drop_last() =~= a + b.drop_last());
        assert((a + b).last() == b.last());
        lemma_byte_len_add(a, b.drop_last());
    }
}

/// `byte_len` counts the bytes of the encoding.
pub proof fn lemma_byte_len_encoding(s: Seq<char>)
    ensures
        byte_len(s) == vstd::utf8::encode_utf8(s).len(),
    decreases s.len(),
{
    if s.len() > 0 {
        let rest = s.drop_first();
        lemma_byte_len_encoding(rest);
        assert(s =~= seq![s[0]] + rest);
        lemma_byte_len_add(seq![s[0]], rest);
        assert(seq![s[0]].drop_last() =~= seq![]);
        reveal_with_fuel(byte_len, 2);
        assert(byte_len(seq![s[0]]) == char_bytes(s[0]));
        vstd::utf8::char_is_scalar(s[0]);
        assert(vstd::utf8::encode_scalar(s[0] as u32).len() == char_bytes(s[0]));
    }
}

/// No text has fewer bytes than characters.
pub proof fn lemma_byte_len_at_least(s: Seq<char>)
    ensures
        s.len() <= byte_len(s),
    decreases s.len(),
{
    if s.len() > 0 {
        lemma_byte_len_at_least(s.drop_last());
    }
}

/// The number of bytes of `s`.
pub fn bytes_in(s: &str) -> (n: usize)
    ensures
        n == byte_len(s@),
{
    proof {
        lemma_byte_len_encoding(s@);
    }
    s.as_bytes().len()
}

fn width_of(c: char) -> (n: usize)
    ensures
        n == char_bytes(c),
        1 <= n <= 4,
{
    let u: u32 = c as u32;
    if u < 0x80 {
        1
    } else if u < 0x800 {
        2
    } else if u < 0x10000 {
        3
    } else {
        4
    }
}

/// The fewest leading characters of `s` that take `max` bytes or more; all of them when `s` takes
/// fewer.
pub open spec fn chars_reaching(s: Seq<char>, max: nat) -> int
    decreases s.len(),
{
    if s.len() == 0 || byte_len(s.drop_last()) < max {
        s.len() as int
    } else {
        chars_reaching(s.drop_last(), max)
    }
}

pub proof fn lemma_chars_reaching(s: Seq<char>, max: nat)
    ensures
        0 <= chars_reaching(s, max) <= s.len(),
        byte_len(s) >= max ==> byte_len(s.take(chars_reaching(s, max))) >= max,
        chars_reaching(s, max) > 0 ==> byte_len(s.take(chars_reaching(s, max) - 1)) < max,
    decreases s.len(),
{
    if s.len() == 0 {
        assert(s.take(0) =~= s);
    } else if byte_len(s.drop_last()) < max {
        assert(s.take(s.len() as int) =~= s);
        assert(s.take(s.len() - 1) =~= s.drop_last());
    } else {
        let k = chars_reaching(s.drop_last(), max);
        lemma_chars_reaching(s.drop_last(), max);
        assert(s.drop_last().take(k) =~= s.take(k));
        if k > 0 {
            assert(s.drop_last().take(k - 1) =~= s.take(k - 1));
        }
    }
}

pub proof fn lemma_byte_len_monotone(s: Seq<char>, i: int, j: int)
    requires
        0 <= i <= j <= s.len(),
    ensures
        byte_len(s.take(i)) <= byte_len(s.take(j)),
{
    assert(s.take(j) =~= s.take(i) + s.subrange(i, j));
    lemma_byte_len_add(s.take(i), s.subrange(i, j));
}

/// A prefix that is one character short of `max` bytes, or more, is the one that reaches it.
pub proof fn lemma_chars_reaching_unique(s: Seq<char>, max: nat, k: int)
    requires
        0 <= k <= s.len(),
        k < s.len() ==> byte_len(s.take(k)) >= max,
        k > 0 ==> byte_len(s.take(k - 1)) < max,
    ensures
        chars_reaching(s, max) == k,
{
    lemma_chars_reaching(s, max);
    let r = chars_reaching(s, max);
    assert(s.take(s.len() as int) =~= s);
    if r < k {
        lemma_byte_len_monotone(s, r, k - 1);
        if byte_len(s) < max {
            lemma_reaching_short(s, max);
        }
    } else if k < r {
        lemma_byte_len_monotone(s, k, r - 1);
    }
}

proof fn lemma_reaching_short(s: Seq<char>, max: nat)
    requires
        byte_len(s) < max,
    ensures
        chars_reaching(s, max) == s.len(),
{
}

/// `s` when it takes at most `max` bytes; otherwise its shortest prefix of `max` bytes or more,
/// followed by three dots.
pub open spec fn truncated(s: Seq<char>, max: nat) -> Seq<char> {
    if byte_len(s) <= max {
        s
    } else {
        s.take(chars_reaching(s, max)) + "..."@
    }
}

/// Cuts `s` after `max` bytes or, where these end inside a character, after that character, and
/// marks the cut with three dots.
pub fn truncate_on_char_boundary(s: &str, max: usize) -> (r: String)
    ensures
        r@ == truncated(s@, max as nat),
{
    if bytes_in(s) <= max {
        return string_of(chars_of(s).as_slice());
    }
    let total: usize = bytes_in(s);
    let cs = chars_of(s);
    let mut k: usize = 0;
    let mut used: usize = 0;
    assert(cs@.take(0) =~= seq![]);
    while k < cs.len() && used < max
        invariant
            k <= cs@.len(),
            cs@ == s@,
            used == byte_len(cs@.take(k as int)),
            total == byte_len(s@),
            k > 0 ==> byte_len(cs@.take(k - 1)) < max,
        decreases cs@.len() - k,
    {
        let w = width_of(cs[k]);
        proof {
            assert(cs@.take(k + 1).drop_last() =~= cs@.take(k as int));
            lemma_byte_len_monotone(cs@, k + 1, cs@.len() as int);
            assert(cs@.take(cs@.len() as int) =~= cs@);
        }
        used = used + w;
        k = k + 1;
    }
    proof {
        assert(cs@.take(cs@.len() as int) =~= cs@);
        lemma_chars_reaching_unique(cs@, max as nat, k as int);
    }
    let mut out = string_of_range(cs.as_slice(), 0, k);
    assert(cs@.subrange(0, k as int) =~= cs@.take(k as int));
    out.append("...");
    out
}

/// `s` with each line feed replaced by a blank.
pub open spec fn on_one_line(s: Seq<char>) -> Seq<char> {
    s.map_values(
        |c: char|
            if c == '\n' {
                ' '
            } else {
                c
            },
    )
}

/// `s` with each line feed replaced by a blank.
pub fn line_feeds_to_blanks(s: &str) -> (r: String)
    ensures
        r@ == on_one_line(s@),
{
    let cs = chars_of(s);
    let mut out = String::new();
    let mut i: usize = 0;
    while i < cs.len()
        invariant
            i <= cs@.len(),
            cs@ == s@,
            out@ =~= on_one_line(cs@.take(i as int)),
        decreases cs@.len() - i,
    {
        let c = cs[i];
        if c == '\n' {
            out.push(' ');
        } else {
            out.push(c);
        }
        assert(cs@.take(i + 1) =~= cs@.take(i as int).push(c));
        i = i + 1;
    }
    assert(cs@.take(cs@.len() as int) =~= cs@);
    out
}

/// The texts of `parts`, one after the other, with `sep` between each two.
pub open spec fn joined(parts: Seq<Seq<char>>, sep: Seq<char>) -> Seq<char>
    decreases parts.len(),
{
    if parts.len() == 0 {
        seq![]
    } else if parts.len() == 1 {
        parts[0]
    } else {
        joined(parts.drop_last(), sep) + sep + parts.last()
    }
}

/// The texts `parts[from..to]`, one after the other, with `sep` between each two.
pub fn join(parts: &Vec<String>, from: usize, to: usize, sep: &str) -> (r: String)
    requires
        from <= to <= parts@.len(),
    ensures
        r@ == joined(views(parts@).subrange(from as int, to as int), sep@),
{
    let mut out = String::new();
    let mut i: usize = from;
    let ghost all = views(parts@);
    assert(joined(all.subrange(from as int, from as int), sep@) =~= seq![]);
    while i < to
        invariant
            from <= i <= to <= parts@.len(),
            all == views(parts@),
            out@ == joined(all.subrange(from as int, i as int), sep@),
        decreases to - i,
    {
        let ghost next = all.subrange(from as int, i + 1);
        assert(next.drop_last() =~= all.subrange(from as int, i as int));
        assert(next.last() == parts@[i as int]@);
        if i > from {
            out.append(sep);
        }
        out.append(parts[i].as_str());
        proof {
            if i == from {
                assert(out@ =~= next[0]);
            }
        }
        i = i + 1;
    }
    out
}

/// The lower-case hexadecimal digit of value `d`.
pub open spec fn hex_digit(d: int) -> char {
    if d < 10 {
        (('0' as u32) + d) as char
    } else {
        (('a' as u32) + (d - 10)) as char
    }
}

/// `bytes` in lower-case hexadecimal, two digits a byte.
pub open spec fn hex(bytes: Seq<u8>) -> Seq<char> {
    Seq::new(
        2 * bytes.len(),
        |i: int|
            if i % 2 == 0 {
                hex_digit(bytes[i / 2] as int / 16)
            } else {
                hex_digit(bytes[i / 2] as int % 16)
            },
    )
}

fn hex_digit_of(d: u8) -> (c: char)
    requires
        d < 16,
    ensures
        c == hex_digit(d as int),
{
    let b: u8 = if d < 10 {
        48 + d
    } else {
        87 + d
    };
    b as char
}

/// `bytes` in lower-case hexadecimal, two digits a byte.
pub fn hex_of(bytes: &[u8]) -> (r: String)
    ensures
        r@ == hex(bytes@),
{
    let mut out = String::new();
    let mut i: usize = 0;
    while i < bytes.len()
        invariant
            i <= bytes@.len(),
            out@ =~= hex(bytes@.take(i as int)),
        decreases bytes@.len() - i,
    {
        out.push(hex_digit_of(bytes[i] / 16));
        out.push(hex_digit_of(bytes[i] % 16));
        i = i + 1;
    }
    assert(bytes@.take(bytes@.len() as int) =~= bytes@);
    out
}

proof fn lemma_hex_digit(d: int)
    requires
        0 <= d < 16,
    ensures
        hex_digit(d) as u32 == if d < 10 {
            48 + d
        } else {
            87 + d
        },
{
}

/// Different bytes have different hexadecimal texts.
pub proof fn lemma_hex_injective(a: Seq<u8>, b: Seq<u8>)
    requires
        hex(a) == hex(b),
    ensures
        a == b,
{
    assert(hex(a).len() == 2 * a.len());
    assert(hex(b).len() == 2 * b.len());
    assert forall|i: int| 0 <= i < a.len() implies a[i] == b[i] by {
        assert(hex(a)[2 * i] == hex(b)[2 * i]);
        assert(hex(a)[2 * i + 1] == hex(b)[2 * i + 1]);
        assert((2 * i) / 2 == i && (2 * i + 1) / 2 == i);
        assert((2 * i) % 2 == 0 && (2 * i + 1) % 2 == 1);
        assert(hex(a)[2 * i] == hex_digit(a[i] as int / 16));
        assert(hex(b)[2 * i] == hex_digit(b[i] as int / 16));
        assert(hex(a)[2 * i + 1] == hex_digit(a[i] as int % 16));
        assert(hex(b)[2 * i + 1] == hex_digit(b[i] as int % 16));
        lemma_hex_digit(a[i] as int / 16);
        lemma_hex_digit(b[i] as int / 16);
        lemma_hex_digit(a[i] as int % 16);
        lemma_hex_digit(b[i] as int % 16);
    }
    assert(a =~= b);
}

/// Where the text of `s` begins.
pub proof fn lemma_trim_start(s: Seq<char>) -> (lo: int)
    ensures
        0 <= lo <= s.len(),
        trim_start(s) == s.skip(lo),
        forall|i: int| 0 <= i < lo ==> is_space(#[trigger] s[i]),
        lo < s.len() ==> !is_space(s[lo]),
    decreases s.len(),
{
    if s.len() > 0 && is_space(s[0]) {
        let rest = s.drop_first();
        let lo = lemma_trim_start(rest);
        assert(rest.skip(lo) =~= s.skip(lo + 1));
        assert forall|i: int| 0 <= i < lo + 1 implies is_space(#[trigger] s[i]) by {
            if i > 0 {
                assert(is_space(rest[i - 1]));
            }
        }
        lo + 1
    } else {
        assert(s.skip(0) =~= s);
        0
    }
}

proof fn lemma_trim_end(s: Seq<char>) -> (hi: int)
    ensures
        0 <= hi <= s.len(),
        trim_end(s) == s.take(hi),
        forall|i: int| hi <= i < s.len() ==> is_space(#[trigger] s[i]),
        hi > 0 ==> !is_space(s[hi - 1]),
    decreases s.len(),
{
    if s.len() > 0 && is_space(s.last()) {
        let rest = s.drop_last();
        let hi = lemma_trim_end(rest);
        assert(rest.take(hi) =~= s.take(hi));
        assert forall|i: int| hi <= i < s.len() implies is_space(#[trigger] s[i]) by {
            if i < rest.len() {
                assert(is_space(rest[i]));
            }
        }
        hi
    } else {
        assert(s.take(s.len() as int) =~= s);
        s.len() as int
    }
}

/// A trimmed text is the part of the text between the first and the last character that is no
/// white space: what is left out is white space, and what is left does not begin or end with it.
pub proof fn law_trimmed_text_is_the_middle(s: Seq<char>) -> (r: (int, int))
    ensures
        0 <= r.0 <= r.1 <= s.len(),
        trimmed(s) == s.subrange(r.0, r.1),
        forall|i: int| 0 <= i < r.0 || r.1 <= i < s.len() ==> is_space(#[trigger] s[i]),
        r.0 < r.1 ==> !is_space(s[r.0]) && !is_space(s[r.1 - 1]),
{
    let lo = lemma_trim_start(s);
    let rest = s.skip(lo);
    let n = lemma_trim_end(rest);
    let hi = lo + n;
    assert(rest.take(n) =~= s.subrange(lo, hi));
    assert forall|i: int| 0 <= i < lo || hi <= i < s.len() implies is_space(#[trigger] s[i]) by {
        if i >= hi {
            assert(is_space(rest[i - lo]));
        }
    }
    if lo < hi {
        assert(rest[n - 1] == s[hi - 1]);
    }
    (lo, hi)
}

/// Only the end of a text is trimmed there: what is left is a beginning of it that does not end
/// with white space, and the rest is white space.
pub proof fn law_trimmed_end_is_white_space(s: Seq<char>)
    ensures
        trim_end(s).is_prefix_of(s),
        forall|i: int| trim_end(s).len() <= i < s.len() ==> is_space(#[trigger] s[i]),
        trim_end(s).len() > 0 ==> !is_space(trim_end(s).last()),
{
    let hi = lemma_trim_end(s);
}

/// Joined texts stand one after the other with the separator between each two, however the list
/// of them is split.
pub proof fn law_joined_texts_keep_their_order(a: Seq<Seq<char>>, b: Seq<Seq<char>>, sep: Seq<char>)
    ensures
        joined(Seq::<Seq<char>>::empty(), sep) == Seq::<char>::empty(),
        a.len() == 1 ==> joined(a, sep) == a[0],
        a.len() > 0 && b.len() > 0 ==> joined(a + b, sep) == joined(a, sep) + sep + joined(b, sep),
    decreases b.len(),
{
    if a.len() > 0 && b.len() > 0 {
        let d = b.drop_last();
        assert((a + b).drop_last() =~= a + d);
        assert((a + b).last() == b.last());
        if b.len() == 1 {
            assert(a + d =~= a);
            assert(b[0] == b.last());
        } else {
            law_joined_texts_keep_their_order(a, d, sep);
            assert(joined(a, sep) + sep + joined(d, sep) + sep + b.last() =~= joined(a, sep) + sep
                + (joined(d, sep) + sep + b.last()));
        }
    }
}

/// The pieces of a text are what stands between the separators: put together with the separator
/// they are the text, and no piece holds it.
pub proof fn law_pieces_make_the_text(s: Seq<char>, c: char)
    ensures
        joined(pieces_of(s, c), seq![c]) == s,
        pieces_of(s, c).len() > 0,
        forall|i: int, j: int|
            #![trigger pieces_of(s, c)[i][j]]
            0 <= i < pieces_of(s, c).len() && 0 <= j < pieces_of(s, c)[i].len() ==> pieces_of(
                s,
                c,
            )[i][j] != c,
    decreases s.len(),
{
    lemma_position(s, c);
    let p = position(s, c) as int;
    if p < s.len() {
        let rest = s.skip(p + 1);
        law_pieces_make_the_text(rest, c);
        let head: Seq<Seq<char>> = seq![s.take(p)];
        law_joined_texts_keep_their_order(head, pieces_of(rest, c), seq![c]);
        assert(s.take(p) + seq![c] + rest =~= s);
        let all = pieces_of(s, c);
        assert forall|i: int, j: int|
            #![trigger all[i][j]]
            0 <= i < all.len() && 0 <= j < all[i].len() implies all[i][j] != c by {
            if i > 0 {
                assert(all[i] == pieces_of(rest, c)[i - 1]);
                assert(pieces_of(rest, c)[i - 1][j] != c);
            }
        }
    }
}

/// Lines put together with line feeds are the text, but for a line feed at its very end, as long
/// as it holds no carriage return; and no line holds a line feed.
pub proof fn law_lines_make_the_text(s: Seq<char>)
    ensures
        !s.contains('\r') ==> joined(lines_of(s), seq!['\n']) == if s.len() > 0 && s.last() == '\n' {
            s.drop_last()
        } else {
            s
        },
        s.len() > 0 ==> lines_of(s).len() > 0,
        forall|i: int, j: int|
            #![trigger lines_of(s)[i][j]]
            0 <= i < lines_of(s).len() && 0 <= j < lines_of(s)[i].len() ==> lines_of(s)[i][j]
                != '\n',
    decreases s.len(),
{
    if s.len() > 0 {
        lemma_position(s, '\n');
        let p = position(s, '\n') as int;
        let all = lines_of(s);
        if p < s.len() {
            let rest = s.skip(p + 1);
            law_lines_make_the_text(rest);
            if !s.contains('\r') {
                assert(forall|i: int| 0 <= i < rest.len() ==> rest[i] == s[p + 1 + i]);
                assert(!rest.contains('\r'));
                let head = s.take(p);
                if p > 0 {
                    assert(head.last() == s[p - 1]);
                }
                assert(strip_cr(head) == head);
                if rest.len() == 0 {
                    assert(all =~= seq![head]);
                    assert(s.drop_last() =~= head);
                } else {
                    law_joined_texts_keep_their_order(seq![head], lines_of(rest), seq!['\n']);
                    assert(rest.last() == s.last());
                    assert(head + seq!['\n'] + rest =~= s);
                    assert(head + seq!['\n'] + rest.drop_last() =~= s.drop_last());
                }
            }
            assert forall|i: int, j: int|
                #![trigger all[i][j]]
                0 <= i < all.len() && 0 <= j < all[i].len() implies all[i][j] != '\n' by {
                if i > 0 {
                    assert(all[i] == lines_of(rest)[i - 1]);
                    assert(lines_of(rest)[i - 1][j] != '\n');
                } else {
                    assert(all[0][j] == s[j]);
                }
            }
        } else {
            assert(s.last() == s[s.len() - 1]);
        }
    }
}

/// A carriage return before a line feed ends a line as the line feed alone does, and is no part of
/// the line; what stands before the end of a line is the line, and what follows is read on its
/// own.
pub proof fn law_lines_end_alike(line: Seq<char>, rest: Seq<char>)
    requires
        !line.contains('\n'),
        line.len() > 0 ==> line.last() != '\r',
    ensures
        lines_of(line + seq!['\n'] + rest) == seq![line] + lines_of(rest),
        lines_of(line + seq!['\r', '\n'] + rest) == seq![line] + lines_of(rest),
        line.len() > 0 ==> lines_of(line) == seq![line],
{
    let a = line + seq!['\n'] + rest;
    let n = line.len() as int;
    assert forall|i: int| 0 <= i < n implies a[i] != '\n' by {
        assert(a[i] == line[i]);
        assert(line.contains(line[i]));
    }
    lemma_position_unique(a, '\n', n);
    assert(a.take(n) =~= line);
    assert(a.skip(n + 1) =~= rest);
    let b = line + seq!['\r', '\n'] + rest;
    assert forall|i: int| 0 <= i < n + 1 implies b[i] != '\n' by {
        if i < n {
            assert(b[i] == line[i]);
            assert(line.contains(line[i]));
        }
    }
    lemma_position_unique(b, '\n', n + 1);
    assert(b.take(n + 1) =~= line.push('\r'));
    assert(line.push('\r').drop_last() =~= line);
    assert(b.skip(n + 2) =~= rest);
    if n > 0 {
        assert forall|i: int| 0 <= i < n implies line[i] != '\n' by {
            assert(line.contains(line[i]));
        }
        lemma_position_unique(line, '\n', n);
    }
}

/// A number that is written is read back: its digits, of which the first is no zero unless it is
/// the only one, have its value.
pub proof fn law_written_numbers_are_read_back(n: nat)
    ensures
        all_digits(decimal(n)),
        decimal(n).len() > 0,
        digits_value(decimal(n)) == n,
        n > 0 ==> decimal(n)[0] != '0',
        n == 0 ==> decimal(n) == seq!['0'],
    decreases n,
{
    if n < 10 {
        let d = decimal(n);
        assert(d.drop_last() =~= Seq::<char>::empty());
        reveal_with_fuel(digits_value, 2);
        assert(digit_char(n as int) as u32 == 48 + n);
    } else {
        let m = n / 10;
        law_written_numbers_are_read_back(m);
        let d = decimal(n);
        let c = digit_char((n % 10) as int);
        assert(c as u32 == 48 + n % 10);
        assert(d.drop_last() =~= decimal(m));
        assert forall|i: int| 0 <= i < d.len() implies is_digit(#[trigger] d[i]) by {
            if i < decimal(m).len() {
                assert(is_digit(decimal(m)[i]));
            }
        }
        assert(d[0] == decimal(m)[0]);
    }
}

/// Each digit that is put behind others multiplies their value by ten and adds its own.
pub proof fn law_digits_are_decimal(s: Seq<char>, c: char)
    requires
        '0' <= c <= '9',
    ensures
        digits_value(Seq::<char>::empty()) == 0,
        digits_value(s.push(c)) == 10 * digits_value(s) + (c as u32 - 48),
{
    assert(s.push(c).drop_last() =~= s);
}

/// A number has a sign in front if and only if it is negative; the rest is its size.
pub proof fn law_signs_are_written(n: int)
    ensures
        n >= 0 ==> signed_decimal(n) == decimal(n as nat),
        n < 0 ==> signed_decimal(n)[0] == '-' && signed_decimal(n).drop_first() == decimal(
            (-n) as nat,
        ),
{
    if n < 0 {
        assert(signed_decimal(n).drop_first() =~= decimal((-n) as nat));
    }
}

/// The order of texts is decided by the first character in which they differ, and a text comes
/// before every longer one that it begins.
pub proof fn law_first_difference_decides(
    common: Seq<char>,
    x: char,
    y: char,
    a: Seq<char>,
    b: Seq<char>,
)
    ensures
        x < y ==> precedes(common + seq![x] + a, common + seq![y] + b),
        x > y ==> !precedes(common + seq![x] + a, common + seq![y] + b),
        precedes(common, common + seq![y] + b),
        !precedes(common + seq![x] + a, common),
        !precedes(common, common),
    decreases common.len(),
{
    let p = common + seq![x] + a;
    let q = common + seq![y] + b;
    if common.len() > 0 {
        let rest = common.drop_first();
        law_first_difference_decides(rest, x, y, a, b);
        assert(p.drop_first() =~= rest + seq![x] + a);
        assert(q.drop_first() =~= rest + seq![y] + b);
    }
}

/// A text of at most `max` bytes is left alone; a longer one is cut behind the first character
/// with which it reaches `max` bytes, and marked.
pub proof fn law_cut_texts_reach_the_limit(s: Seq<char>, max: nat) -> (k: int)
    ensures
        0 <= k <= s.len(),
        byte_len(s) <= max ==> truncated(s, max) == s,
        byte_len(s) > max ==> truncated(s, max) == s.take(k) + seq!['.', '.', '.'] && byte_len(
            s.take(k),
        ) >= max && forall|j: int| 0 <= j < k ==> byte_len(#[trigger] s.take(j)) < max,
{
    lemma_chars_reaching(s, max);
    let k = chars_reaching(s, max);
    reveal_strlit("...");
    assert("..."@ =~= seq!['.', '.', '.']);
    assert forall|j: int| 0 <= j < k && byte_len(s) > max implies byte_len(#[trigger] s.take(j))
        < max by {
        lemma_byte_len_monotone(s, j, k - 1);
    }
    k
}

/// A text on one line has no line feed, and is the text but for blanks where those stood.
pub proof fn law_line_feeds_become_blanks(s: Seq<char>)
    ensures
        on_one_line(s).len() == s.len(),
        forall|i: int|
            0 <= i < s.len() ==> (if s[i] == '\n' {
                #[trigger] on_one_line(s)[i] == ' '
            } else {
                on_one_line(s)[i] == s[i]
            }),
{
}

/// The value of a hexadecimal digit.
pub open spec fn hex_value(c: char) -> int {
    if c <= '9' {
        c as u32 - 48
    } else {
        c as u32 - 87
    }
}

/// Two hexadecimal digits, lower-case ones, write each byte.
pub proof fn law_two_digits_write_a_byte(bytes: Seq<u8>, i: int)
    requires
        0 <= i < bytes.len(),
    ensures
        hex(bytes).len() == 2 * bytes.len(),
        16 * hex_value(hex(bytes)[2 * i]) + hex_value(hex(bytes)[2 * i + 1]) == bytes[i],
        is_digit(hex(bytes)[2 * i]) || 'a' <= hex(bytes)[2 * i] <= 'f',
        is_digit(hex(bytes)[2 * i + 1]) || 'a' <= hex(bytes)[2 * i + 1] <= 'f',
{
    assert((2 * i) / 2 == i && (2 * i + 1) / 2 == i);
    assert((2 * i) % 2 == 0 && (2 * i + 1) % 2 == 1);
    lemma_hex_digit(bytes[i] as int / 16);
    lemma_hex_digit(bytes[i] as int % 16);
}

/// A number is read from its digits, with or without a plus sign, if it is no larger than the
/// largest; a text with anything else in it is no number.
pub proof fn law_numbers_are_read(n: nat, max: nat, s: Seq<char>)
    ensures
        n <= max ==> unsigned_value(decimal(n), max) == Some(n),
        n <= max ==> unsigned_value(seq!['+'] + decimal(n), max) == Some(n),
        n > max ==> unsigned_value(decimal(n), max) is None,
        unsigned_value(Seq::<char>::empty(), max) is None,
        unsigned_value(s, max) matches Some(v) ==> v <= max && forall|i: int|
            0 <= i < s.len() ==> is_digit(#[trigger] s[i]) || (i == 0 && s[i] == '+'),
{
    law_written_numbers_are_read_back(n);
    assert(is_digit(decimal(n)[0]));
    assert((seq!['+'] + decimal(n)).drop_first() =~= decimal(n));
    if unsigned_value(s, max) is Some {
        assert forall|i: int| 0 <= i < s.len() implies is_digit(#[trigger] s[i]) || (i == 0 && s[i]
            == '+') by {
            if s[0] == '+' {
                if i > 0 {
                    assert(s.drop_first()[i - 1] == s[i]);
                }
            }
        }
    }
}

/// White space are the twenty-five characters that Unicode counts as such, and no others.
pub proof fn law_white_space_is_unicodes(c: char, r: bool)
    requires
        call_ensures(is_whitespace, (c,), r),
    ensures
        r <==> (c == '\t' || c == '\n' || c == '\u{b}' || c == '\u{c}' || c == '\r' || c == ' ' || c
            == '\u{85}' || c == '\u{a0}' || c == '\u{1680}' || c == '\u{2000}' || c == '\u{2001}'
            || c == '\u{2002}' || c == '\u{2003}' || c == '\u{2004}' || c == '\u{2005}' || c
            == '\u{2006}' || c == '\u{2007}' || c == '\u{2008}' || c == '\u{2009}' || c
            == '\u{200a}' || c == '\u{2028}' || c == '\u{2029}' || c == '\u{202f}' || c
            == '\u{205f}' || c == '\u{3000}'),
{
}

/// The length of a text in bytes is that of its encoding in UTF-8.
pub proof fn law_bytes_are_those_of_the_encoding(s: &str, r: usize)
    requires
        call_ensures(bytes_in, (s,), r),
    ensures
        r == vstd::utf8::encode_utf8(s@).len(),
{
    lemma_byte_len_encoding(s@);
}

/// Texts are equal if they have the same characters, and a text begins with another if it is that
/// one with something behind it, which is what putting two texts together gives.
pub proof fn law_texts_are_their_characters(a: &str, b: &str, same: bool, both: String, begins: bool)
    requires
        call_ensures(text_eq, (a, b), same),
        call_ensures(glue, (a, b), both),
        call_ensures(starts_with, (a, b), begins),
    ensures
        same <==> a@.len() == b@.len() && forall|i: int| 0 <= i < a@.len() ==> #[trigger] a@[i] == b@[i],
        both@.len() == a@.len() + b@.len(),
        forall|i: int| 0 <= i < a@.len() ==> #[trigger] both@[i] == a@[i],
        forall|i: int| 0 <= i < b@.len() ==> both@[a@.len() + i] == #[trigger] b@[i],
        begins <==> b@.len() <= a@.len() && forall|i: int|
            0 <= i < b@.len() ==> a@[i] == #[trigger] b@[i],
{
    if a@.len() == b@.len() && (forall|i: int| 0 <= i < a@.len() ==> #[trigger] a@[i] == b@[i]) {
        assert(a@ =~= b@);
    }
    if b@.len() <= a@.len() && (forall|i: int| 0 <= i < b@.len() ==> a@[i] == #[trigger] b@[i]) {
        assert(a@.subrange(0, b@.len() as int) =~= b@);
    }
    if b@.is_prefix_of(a@) {
        assert forall|i: int| 0 <= i < b@.len() implies a@[i] == #[trigger] b@[i] by {
            assert(a@.subrange(0, b@.len() as int)[i] == a@[i]);
        }
    }
}

} // verus!
