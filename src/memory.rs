use vstd::prelude::*;

use crate::text::{
    all_digits, chars_of, digits_as_i32, digits_to_i32, has_prefix, is_digit, is_digit_char,
    lines_of, next_line, starts_with,
};

verus! {

pub const MEM_TOTAL_MARKER: &'static str = "MemTotal:";

pub const MEM_AVAILABLE_MARKER: &'static str = "MemAvailable:";

/// Whether a character belongs to one of Unicode's number categories.
pub uninterp spec fn numeric_char(c: char) -> bool;

/// Relies on char::is_numeric: true for the characters of the general
/// categories for numbers; among ASCII characters those are the digits.
#[verifier::external_body]
fn is_numeric(c: char) -> (r: bool)
    ensures
        r == numeric_char(c),
        (c as u32) < 128 ==> (r == is_digit(c)),
{
    c.is_numeric()
}

/// The numeric characters of `s`, in order.
pub open spec fn numeric_chars(s: Seq<char>) -> Seq<char>
    decreases s.len(),
{
    if s.len() == 0 {
        seq![]
    } else if numeric_char(s.last()) {
        numeric_chars(s.drop_last()).push(s.last())
    } else {
        numeric_chars(s.drop_last())
    }
}

/// The numeric characters of a line read as one decimal number: nothing
/// where there are none, where one of them is not an ASCII digit, or where the
/// value does not fit in an `i32`.
pub open spec fn kilobytes_model(line: Seq<char>) -> Option<i32> {
    let ds = numeric_chars(line);
    if ds.len() > 0 && all_digits(ds) {
        digits_as_i32(ds)
    } else {
        None
    }
}

fn kilobytes_in_chars(line: &Vec<char>) -> (r: Option<i32>)
    ensures
        r == kilobytes_model(line@),
{
    let mut ds: Vec<char> = Vec::new();
    let mut i: usize = 0;
    while i < line.len()
        invariant
            i <= line.len(),
            ds@ == numeric_chars(line@.take(i as int)),
        decreases line.len() - i,
    {
        let ghost before = line@.take(i as int);
        assert(line@.take(i as int + 1).drop_last() =~= before);
        if is_numeric(line[i]) {
            ds.push(line[i]);
        }
        i = i + 1;
    }
    assert(line@.take(i as int) =~= line@);
    if ds.len() == 0 {
        return None;
    }
    let mut k: usize = 0;
    while k < ds.len()
        invariant
            k <= ds.len(),
            ds@ == numeric_chars(line@),
            forall|j: int| 0 <= j < k ==> is_digit(ds@[j]),
        decreases ds.len() - k,
    {
        if !is_digit_char(ds[k]) {
            assert(!all_digits(ds@));
            return None;
        }
        k = k + 1;
    }
    assert(ds@.subrange(0, ds.len() as int) =~= ds@);
    digits_to_i32(&ds, 0, ds.len())
}

/// The number that the numeric characters of a line write.
pub fn kilobytes_in_line(line: &str) -> (r: Option<i32>)
    ensures
        r == kilobytes_model(line@),
{
    let chars = chars_of(line);
    kilobytes_in_chars(&chars)
}

/// The two figures of the memory statistics that the status line needs.
pub struct MemInfo {
    pub total_kb: Option<i32>,
    pub available_kb: Option<i32>,
}

/// What one line does to the figures: a line of either marker sets its figure
/// anew, even to nothing.
pub open spec fn meminfo_step(m: (Option<i32>, Option<i32>), line: Seq<char>) -> (
    Option<i32>,
    Option<i32>,
) {
    if starts_with(line, MEM_TOTAL_MARKER@) {
        (kilobytes_model(line), m.1)
    } else if starts_with(line, MEM_AVAILABLE_MARKER@) {
        (m.0, kilobytes_model(line))
    } else {
        m
    }
}

pub open spec fn meminfo_run(m: (Option<i32>, Option<i32>), lines: Seq<Seq<char>>) -> (
    Option<i32>,
    Option<i32>,
)
    decreases lines.len(),
{
    if lines.len() == 0 {
        m
    } else {
        meminfo_run(meminfo_step(m, lines[0]), lines.drop_first())
    }
}

pub open spec fn meminfo_model(text: Seq<char>) -> (Option<i32>, Option<i32>) {
    meminfo_run((None, None), lines_of(text))
}

/// The total and available memory that the memory statistics give, the
/// last line of each marker counting.
pub fn parse_meminfo(text: &str) -> (r: MemInfo)
    ensures
        (r.total_kb, r.available_kb) == meminfo_model(text@),
{
    let chars = chars_of(text);
    let mut total: Option<i32> = None;
    let mut available: Option<i32> = None;
    let mut pos: usize = 0;
    assert(chars@.skip(0) =~= chars@);
    while pos < chars.len()
        invariant
            chars@ == text@,
            pos <= chars.len(),
            meminfo_run((total, available), lines_of(chars@.skip(pos as int))) == meminfo_model(
                text@,
            ),
        decreases chars.len() - pos,
    {
        let (line, next) = next_line(&chars, pos);
        let ghost rest = lines_of(chars@.skip(next as int));
        assert((seq![line@] + rest)[0] == line@);
        assert((seq![line@] + rest).drop_first() =~= rest);
        if has_prefix(&line, MEM_TOTAL_MARKER) {
            total = kilobytes_in_chars(&line);
        } else if has_prefix(&line, MEM_AVAILABLE_MARKER) {
            available = kilobytes_in_chars(&line);
        }
        pos = next;
    }
    assert(chars@.skip(pos as int) =~= Seq::<char>::empty());
    MemInfo { total_kb: total, available_kb: available }
}

} // verus!
