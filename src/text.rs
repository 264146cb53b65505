use vstd::prelude::*;

verus! {

pub open spec fn is_digit(c: char) -> bool {
    '0' <= c && c <= '9'
}

pub open spec fn all_digits(s: Seq<char>) -> bool {
    forall|i: int| 0 <= i < s.len() ==> is_digit(#[trigger] s[i])
}

/// The number that a run of decimal digits writes, most significant first.
pub open spec fn digits_value(s: Seq<char>) -> int
    decreases s.len(),
{
    if s.len() == 0 {
        0
    } else {
        digits_value(s.drop_last()) * 10 + (s.last() as int - '0' as int)
    }
}

/// A run of digits read as an `i32`, or nothing where the value does not fit.
pub open spec fn digits_as_i32(s: Seq<char>) -> Option<i32> {
    if digits_value(s) <= i32::MAX {
        Some(digits_value(s) as i32)
    } else {
        None
    }
}

pub open spec fn starts_with(s: Seq<char>, prefix: Seq<char>) -> bool {
    prefix.len() <= s.len() && s.take(prefix.len() as int) == prefix
}

/// How many characters come before the first line feed (all of them, if none).
pub open spec fn line_len(s: Seq<char>) -> nat
    decreases s.len(),
{
    if s.len() == 0 || s[0] == '\n' {
        0
    } else {
        1 + line_len(s.drop_first())
    }
}

/// A line that was ended by "\r\n" loses its carriage return.
pub open spec fn strip_cr(line: Seq<char>) -> Seq<char> {
    if line.len() > 0 && line.last() == '\r' {
        line.drop_last()
    } else {
        line
    }
}

/// The lines of a text: split at each line feed, a line feed preceded by a
/// carriage return counting as one ending, and a final ending being optional.
pub open spec fn lines_of(s: Seq<char>) -> Seq<Seq<char>>
    decreases s.len(),
{
    if s.len() == 0 {
        seq![]
    } else if line_len(s) >= s.len() {
        seq![s]
    } else {
        seq![strip_cr(s.take(line_len(s) as int))] + lines_of(s.skip(line_len(s) as int + 1))
    }
}

proof fn lemma_line_len(s: Seq<char>, k: int)
    requires
        0 <= k <= s.len(),
        forall|i: int| 0 <= i < k ==> s[i] != '\n',
        k == s.len() || s[k] == '\n',
    ensures
        line_len(s) == k,
    decreases k,
{
    if k > 0 {
        let t = s.drop_first();
        assert forall|i: int| 0 <= i < k - 1 implies t[i] != '\n' by {
            assert(t[i] == s[i + 1]);
        }
        lemma_line_len(t, k - 1);
    }
}

/// Relies on String::push: the character is appended at the end.
#[verifier::external_body]
pub(crate) fn push_char(s: &mut String, c: char)
    ensures
        final(s)@ == old(s)@.push(c),
{
    s.push(c);
}

/// The characters of a text, in order.
pub fn chars_of(text: &str) -> (r: Vec<char>)
    ensures
        r@ == text@,
{
    let mut r: Vec<char> = Vec::new();
    for c in it: text.chars()
        invariant
            it.seq() == text@,
            r@ == text@.take(it.index() as int),
    {
        r.push(c);
        assert(r@ =~= text@.take(it.index() as int + 1));
    }
    assert(r@ =~= text@);
    r
}

/// The characters of `s` from position `from` on, as a string.
pub fn string_from(s: &Vec<char>, from: usize) -> (r: String)
    requires
        from <= s.len(),
    ensures
        r@ == s@.skip(from as int),
{
    let mut r = String::new();
    let mut i: usize = from;
    while i < s.len()
        invariant
            from <= i <= s.len(),
            r@ == s@.subrange(from as int, i as int),
        decreases s.len() - i,
    {
        push_char(&mut r, s[i]);
        i = i + 1;
        assert(r@ =~= s@.subrange(from as int, i as int));
    }
    assert(r@ =~= s@.skip(from as int));
    r
}

/// Whether `s` begins with `prefix`.
pub fn has_prefix(s: &Vec<char>, prefix: &str) -> (r: bool)
    ensures
        r == starts_with(s@, prefix@),
{
    assert(s@.skip(0) =~= s@);
    has_prefix_at(s, 0, prefix)
}

/// Whether `s[at..]` begins with `prefix`.
pub fn has_prefix_at(s: &Vec<char>, at: usize, prefix: &str) -> (r: bool)
    requires
        at <= s.len(),
    ensures
        r == starts_with(s@.skip(at as int), prefix@),
{
    let ghost t = s@.skip(at as int);
    let n = prefix.unicode_len();
    if n > s.len() - at {
        return false;
    }
    let mut i: usize = 0;
    while i < n
        invariant
            at <= s.len(),
            t == s@.skip(at as int),
            t.len() == s.len() - at,
            n == prefix@.len(),
            n <= t.len(),
            i <= n,
            t.take(i as int) == prefix@.take(i as int),
        decreases n - i,
    {
        if s[at + i] != prefix.get_char(i) {
            assert(t.take(n as int)[i as int] != prefix@[i as int]);
            return false;
        }
        i = i + 1;
        assert(t.take(i as int) =~= prefix@.take(i as int));
    }
    assert(prefix@.take(n as int) =~= prefix@);
    true
}

pub fn is_digit_char(c: char) -> (r: bool)
    ensures
        r == is_digit(c),
{
    '0' <= c && c <= '9'
}

/// The value of the digits `s[start..end]`, or nothing where it does not fit
/// in an `i32`.
pub fn digits_to_i32(s: &Vec<char>, start: usize, end: usize) -> (r: Option<i32>)
    requires
        start <= end <= s.len(),
        all_digits(s@.subrange(start as int, end as int)),
    ensures
        r == digits_as_i32(s@.subrange(start as int, end as int)),
{
    let cap: u64 = 0x8000_0000;
    let mut v: u64 = 0;
    let mut i: usize = start;
    while i < end
        invariant
            start <= i <= end <= s.len(),
            all_digits(s@.subrange(start as int, end as int)),
            cap == 0x8000_0000,
            v <= cap,
            v < cap ==> v == digits_value(s@.subrange(start as int, i as int)),
            v == cap ==> digits_value(s@.subrange(start as int, i as int)) >= cap,
        decreases end - i,
    {
        let ghost prev = s@.subrange(start as int, i as int);
        let ghost next = s@.subrange(start as int, i as int + 1);
        assert(next.drop_last() =~= prev);
        assert(is_digit(s@.subrange(start as int, end as int)[i - start]));
        let d = (s[i] as u32 - '0' as u32) as u64;
        if v < cap {
            v = v * 10 + d;
            if v > cap {
                v = cap;
            }
        }
        i = i + 1;
    }
    if v < cap {
        Some(v as i32)
    } else {
        None
    }
}

/// Where the line that starts at `start` ends, and where the next one begins.
pub fn next_line(s: &Vec<char>, start: usize) -> (r: (Vec<char>, usize))
    requires
        start < s.len(),
    ensures
        start < r.1 <= s.len(),
        lines_of(s@.skip(start as int)) == seq![r.0@] + lines_of(s@.skip(r.1 as int)),
{
    let mut e: usize = start;
    while e < s.len() && s[e] != '\n'
        invariant
            start <= e <= s.len(),
            forall|i: int| start <= i < e ==> s@[i] != '\n',
        decreases s.len() - e,
    {
        e = e + 1;
    }
    let ghost rest = s@.skip(start as int);
    proof {
        lemma_line_len(rest, e - start);
    }
    let mut content_end = e;
    if e < s.len() && e > start && s[e - 1] == '\r' {
        content_end = e - 1;
    }
    let mut line: Vec<char> = Vec::new();
    let mut i: usize = start;
    while i < content_end
        invariant
            start <= i <= content_end <= s.len(),
            line@ == s@.subrange(start as int, i as int),
        decreases content_end - i,
    {
        line.push(s[i]);
        i = i + 1;
        assert(line@ =~= s@.subrange(start as int, i as int));
    }
    if e == s.len() {
        assert(rest =~= line@);
        assert(s@.skip(e as int) =~= Seq::<char>::empty());
        assert(seq![line@] + lines_of(s@.skip(e as int)) =~= seq![line@]);
        (line, e)
    } else {
        assert(rest.take(e - start) =~= s@.subrange(start as int, e as int));
        assert(strip_cr(rest.take(e - start)) =~= line@);
        assert(rest.skip(e - start + 1) =~= s@.skip(e as int + 1));
        (line, e + 1)
    }
}

} // verus!
