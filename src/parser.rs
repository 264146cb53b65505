use vstd::prelude::*;

use crate::sink::{empty_sink, sinks_view, Sink, SinkView};
use crate::text::{
    all_digits, chars_of, digits_as_i32, digits_to_i32, has_prefix, is_digit, is_digit_char, lines_of,
    next_line, starts_with, string_from,
};

verus! {

/// Opens the block of one sink; the sink's number follows it.
pub const SINK_MARKER: &'static str = "Sink #";

pub const NAME_MARKER: &'static str = "\tName: ";

pub const DESCRIPTION_MARKER: &'static str = "\tDescription: ";

pub const MUTE_MARKER: &'static str = "\tMute: ";

pub const VOLUME_MARKER: &'static str = "\tVolume: ";

/// How many digits `s` begins with.
pub open spec fn digit_run_len(s: Seq<char>) -> nat
    decreases s.len(),
{
    if s.len() > 0 && is_digit(s[0]) {
        1 + digit_run_len(s.drop_first())
    } else {
        0
    }
}

/// A line that opens a sink block: the marker, then at least one digit.
pub open spec fn is_header(line: Seq<char>) -> bool {
    &&& starts_with(line, SINK_MARKER@)
    &&& line.len() > SINK_MARKER@.len()
    &&& is_digit(line[SINK_MARKER@.len() as int])
}

/// The digits that follow the marker of a header line.
pub open spec fn header_digits(line: Seq<char>) -> Seq<char> {
    let k = SINK_MARKER@.len() as int;
    line.subrange(k, k + digit_run_len(line.skip(k)))
}

/// The number of a header line, or -1 where it does not fit in an `i32`.
pub open spec fn header_number(line: Seq<char>) -> int {
    match digits_as_i32(header_digits(line)) {
        Some(n) => n as int,
        None => -1,
    }
}

/// Position `i` is a percent sign right after a digit.
pub open spec fn is_percent_end(s: Seq<char>, i: int) -> bool {
    1 <= i < s.len() && s[i] == '%' && is_digit(s[i - 1])
}

/// The first position from `i` on that ends a `<digits>%` match.
pub open spec fn first_percent_from(s: Seq<char>, i: int) -> Option<int>
    decreases s.len() - i,
{
    if i >= s.len() {
        None
    } else if is_percent_end(s, i) {
        Some(i)
    } else {
        first_percent_from(s, i + 1)
    }
}

/// Where the run of digits that ends just before position `j` begins.
pub open spec fn digit_run_start(s: Seq<char>, j: int) -> int
    decreases j,
{
    if j > 0 && is_digit(s[j - 1]) {
        digit_run_start(s, j - 1)
    } else {
        j
    }
}

/// The first `<digits>%` of a line, read as a number; nothing where the line
/// has none or its value does not fit in an `i32`.
pub open spec fn volume_in_line(line: Seq<char>) -> Option<i32> {
    match first_percent_from(line, 0) {
        Some(i) => digits_as_i32(line.subrange(digit_run_start(line, i), i)),
        None => None,
    }
}

pub open spec fn has_yes(s: Seq<char>) -> bool {
    exists|i: int|
        0 <= i && i + 3 <= s.len() && #[trigger] s[i] == 'y' && s[i + 1] == 'e' && s[i + 2]
            == 's'
}

/// What a field line inside a sink block does to the record being built.
pub open spec fn apply_field(s: SinkView, line: Seq<char>) -> SinkView {
    if starts_with(line, NAME_MARKER@) {
        SinkView { name: line.skip(NAME_MARKER@.len() as int), ..s }
    } else if starts_with(line, DESCRIPTION_MARKER@) {
        SinkView { description: line.skip(DESCRIPTION_MARKER@.len() as int), ..s }
    } else if starts_with(line, MUTE_MARKER@) {
        SinkView { is_muted: has_yes(line.skip(MUTE_MARKER@.len() as int)), ..s }
    } else if starts_with(line, VOLUME_MARKER@) {
        match volume_in_line(line) {
            Some(v) => SinkView { volume_percent: v as int, ..s },
            None => s,
        }
    } else {
        s
    }
}

/// The state of the parser: the records finished so far, and the one being
/// built (none before the first header).
pub struct ParseModel {
    pub done: Seq<SinkView>,
    pub current: Option<SinkView>,
}

pub open spec fn initial_model() -> ParseModel {
    ParseModel { done: seq![], current: None }
}

/// The finished records once the current one is closed: it is kept if valid.
pub open spec fn flushed(m: ParseModel) -> Seq<SinkView> {
    match m.current {
        Some(s) => if s.is_valid() {
            m.done.push(s)
        } else {
            m.done
        },
        None => m.done,
    }
}

/// One line of the listing.
pub open spec fn step(m: ParseModel, line: Seq<char>) -> ParseModel {
    if is_header(line) {
        ParseModel {
            done: flushed(m),
            current: Some(SinkView { number: header_number(line), ..empty_sink() }),
        }
    } else {
        match m.current {
            Some(s) => ParseModel { done: m.done, current: Some(apply_field(s, line)) },
            None => m,
        }
    }
}

pub open spec fn run(m: ParseModel, lines: Seq<Seq<char>>) -> ParseModel
    decreases lines.len(),
{
    if lines.len() == 0 {
        m
    } else {
        run(step(m, lines[0]), lines.drop_first())
    }
}

/// The records that a listing given as lines yields.
pub open spec fn sinks_of_lines(lines: Seq<Seq<char>>) -> Seq<SinkView> {
    flushed(run(initial_model(), lines))
}

/// The records that a listing yields.
pub open spec fn parse_model(text: Seq<char>) -> Seq<SinkView> {
    sinks_of_lines(lines_of(text))
}

/// The record built from `s` by the field lines `lines`, in order.
pub open spec fn apply_fields(s: SinkView, lines: Seq<Seq<char>>) -> SinkView
    decreases lines.len(),
{
    if lines.len() == 0 {
        s
    } else {
        apply_fields(apply_field(s, lines[0]), lines.drop_first())
    }
}

/// A sink block: a header line, then lines none of which is a header.
pub open spec fn is_block(b: Seq<Seq<char>>) -> bool {
    &&& b.len() > 0
    &&& is_header(b[0])
    &&& forall|i: int| 1 <= i < b.len() ==> !is_header(#[trigger] b[i])
}

/// The record that a block builds on its own.
pub open spec fn block_record(b: Seq<Seq<char>>) -> SinkView {
    apply_fields(SinkView { number: header_number(b[0]), ..empty_sink() }, b.drop_first())
}

/// The lines of the blocks, one block after the other.
pub open spec fn concat_lines(blocks: Seq<Seq<Seq<char>>>) -> Seq<Seq<char>>
    decreases blocks.len(),
{
    if blocks.len() == 0 {
        seq![]
    } else {
        concat_lines(blocks.drop_last()) + blocks.last()
    }
}

/// The records of the blocks that are valid, in block order.
pub open spec fn valid_records(blocks: Seq<Seq<Seq<char>>>) -> Seq<SinkView>
    decreases blocks.len(),
{
    if blocks.len() == 0 {
        seq![]
    } else if block_record(blocks.last()).is_valid() {
        valid_records(blocks.drop_last()).push(block_record(blocks.last()))
    } else {
        valid_records(blocks.drop_last())
    }
}

pub open spec fn no_header(lines: Seq<Seq<char>>) -> bool {
    forall|i: int| 0 <= i < lines.len() ==> !is_header(#[trigger] lines[i])
}

proof fn lemma_run_concat(m: ParseModel, a: Seq<Seq<char>>, b: Seq<Seq<char>>)
    ensures
        run(m, a + b) == run(run(m, a), b),
    decreases a.len(),
{
    if a.len() > 0 {
        assert((a + b)[0] == a[0]);
        assert((a + b).drop_first() =~= a.drop_first() + b);
        lemma_run_concat(step(m, a[0]), a.drop_first(), b);
    } else {
        assert(a + b =~= b);
    }
}

proof fn lemma_run_fields(d: Seq<SinkView>, s: SinkView, lines: Seq<Seq<char>>)
    requires
        no_header(lines),
    ensures
        run(ParseModel { done: d, current: Some(s) }, lines) == (ParseModel {
            done: d,
            current: Some(apply_fields(s, lines)),
        }),
    decreases lines.len(),
{
    if lines.len() > 0 {
        assert(!is_header(lines[0]));
        lemma_run_fields(d, apply_field(s, lines[0]), lines.drop_first());
    }
}

proof fn lemma_run_preamble(lines: Seq<Seq<char>>)
    requires
        no_header(lines),
    ensures
        run(initial_model(), lines) == initial_model(),
    decreases lines.len(),
{
    if lines.len() > 0 {
        assert(!is_header(lines[0]));
        lemma_run_preamble(lines.drop_first());
    }
}

proof fn lemma_run_block(m: ParseModel, b: Seq<Seq<char>>)
    requires
        is_block(b),
    ensures
        run(m, b) == (ParseModel { done: flushed(m), current: Some(block_record(b)) }),
{
    let rest = b.drop_first();
    assert(no_header(rest)) by {
        assert forall|i: int| 0 <= i < rest.len() implies !is_header(#[trigger] rest[i]) by {
            assert(rest[i] == b[i + 1]);
        }
    }
    lemma_run_fields(flushed(m), SinkView { number: header_number(b[0]), ..empty_sink() }, rest);
}

proof fn lemma_run_blocks(blocks: Seq<Seq<Seq<char>>>)
    requires
        blocks.len() > 0,
        forall|i: int| 0 <= i < blocks.len() ==> is_block(#[trigger] blocks[i]),
    ensures
        run(initial_model(), concat_lines(blocks)) == (ParseModel {
            done: valid_records(blocks.drop_last()),
            current: Some(block_record(blocks.last())),
        }),
    decreases blocks.len(),
{
    let init = blocks.drop_last();
    let last = blocks.last();
    assert(is_block(blocks[blocks.len() - 1]));
    lemma_run_concat(initial_model(), concat_lines(init), last);
    if init.len() == 0 {
        assert(concat_lines(init) =~= seq![]);
        lemma_run_block(initial_model(), last);
        assert(flushed(initial_model()) =~= valid_records(init));
    } else {
        assert forall|i: int| 0 <= i < init.len() implies is_block(#[trigger] init[i]) by {
            assert(init[i] == blocks[i]);
        }
        lemma_run_blocks(init);
        let m = run(initial_model(), concat_lines(init));
        lemma_run_block(m, last);
        assert(init.drop_last().push(init.last()) =~= init);
    }
}

/// A listing made of sink blocks, after lines that hold no header, yields
/// the records of the valid blocks, each being the record that its block
/// builds on its own, in block order.
pub proof fn lemma_listing_of_blocks(preamble: Seq<Seq<char>>, blocks: Seq<Seq<Seq<char>>>)
    requires
        no_header(preamble),
        forall|i: int| 0 <= i < blocks.len() ==> is_block(#[trigger] blocks[i]),
    ensures
        sinks_of_lines(preamble + concat_lines(blocks)) == valid_records(blocks),
{
    lemma_run_concat(initial_model(), preamble, concat_lines(blocks));
    lemma_run_preamble(preamble);
    if blocks.len() == 0 {
        assert(concat_lines(blocks) =~= seq![]);
    } else {
        lemma_run_blocks(blocks);
        assert(blocks.drop_last().push(blocks.last()) =~= blocks);
    }
}

proof fn lemma_apply_fields_number(s: SinkView, lines: Seq<Seq<char>>)
    ensures
        apply_fields(s, lines).number == s.number,
    decreases lines.len(),
{
    if lines.len() > 0 {
        lemma_apply_fields_number(apply_field(s, lines[0]), lines.drop_first());
    }
}

proof fn lemma_all_valid_records(blocks: Seq<Seq<Seq<char>>>)
    requires
        forall|i: int| 0 <= i < blocks.len() ==> (#[trigger] block_record(blocks[i])).is_valid(),
    ensures
        valid_records(blocks) == blocks.map_values(|b: Seq<Seq<char>>| block_record(b)),
    decreases blocks.len(),
{
    if blocks.len() > 0 {
        let init = blocks.drop_last();
        assert(block_record(blocks[blocks.len() - 1]).is_valid());
        assert forall|i: int| 0 <= i < init.len() implies (#[trigger] block_record(
            init[i],
        )).is_valid() by {
            assert(init[i] == blocks[i]);
        }
        lemma_all_valid_records(init);
        assert(init.map_values(|b: Seq<Seq<char>>| block_record(b)).push(block_record(blocks.last()))
            =~= blocks.map_values(|b: Seq<Seq<char>>| block_record(b)));
    }
}

/// A listing of N sink blocks, each with a number that fits and a non-empty
/// name, yields exactly N records, the i-th one from the i-th block and
/// carrying its header's number.
pub proof fn lemma_valid_blocks_all_kept(blocks: Seq<Seq<Seq<char>>>)
    requires
        forall|i: int| 0 <= i < blocks.len() ==> is_block(#[trigger] blocks[i]),
        forall|i: int| 0 <= i < blocks.len() ==> (#[trigger] block_record(blocks[i])).is_valid(),
    ensures
        sinks_of_lines(concat_lines(blocks)).len() == blocks.len(),
        forall|i: int|
            0 <= i < blocks.len() ==> #[trigger] sinks_of_lines(concat_lines(blocks))[i]
                == block_record(blocks[i]),
        forall|i: int|
            0 <= i < blocks.len() ==> (#[trigger] sinks_of_lines(concat_lines(blocks))[i]).number
                == header_number(blocks[i][0]),
{
    let empty: Seq<Seq<char>> = seq![];
    lemma_listing_of_blocks(empty, blocks);
    assert(empty + concat_lines(blocks) =~= concat_lines(blocks));
    lemma_all_valid_records(blocks);
    assert forall|i: int| 0 <= i < blocks.len() implies (#[trigger] block_record(
        blocks[i],
    )).number == header_number(blocks[i][0]) by {
        lemma_apply_fields_number(
            SinkView { number: header_number(blocks[i][0]), ..empty_sink() },
            blocks[i].drop_first(),
        );
    }
}

proof fn lemma_valid_records_skip(
    before: Seq<Seq<Seq<char>>>,
    bad: Seq<Seq<char>>,
    after: Seq<Seq<Seq<char>>>,
)
    requires
        !block_record(bad).is_valid(),
    ensures
        valid_records(before.push(bad) + after) == valid_records(before + after),
    decreases after.len(),
{
    if after.len() == 0 {
        assert(before.push(bad) + after =~= before.push(bad));
        assert(before + after =~= before);
        assert(before.push(bad).drop_last() =~= before);
    } else {
        let a = after.drop_last();
        lemma_valid_records_skip(before, bad, a);
        assert((before.push(bad) + after).drop_last() =~= before.push(bad) + a);
        assert((before + after).drop_last() =~= before + a);
    }
}

/// A block whose record is not valid (no name, or a number that does not
/// fit) leaves no record behind, and the records of the other blocks are
/// those they would yield without it.
pub proof fn lemma_invalid_block_dropped(
    before: Seq<Seq<Seq<char>>>,
    bad: Seq<Seq<char>>,
    after: Seq<Seq<Seq<char>>>,
)
    requires
        forall|i: int| 0 <= i < before.len() ==> is_block(#[trigger] before[i]),
        forall|i: int| 0 <= i < after.len() ==> is_block(#[trigger] after[i]),
        is_block(bad),
        !block_record(bad).is_valid(),
    ensures
        sinks_of_lines(concat_lines(before.push(bad) + after)) == sinks_of_lines(
            concat_lines(before + after),
        ),
{
    let empty: Seq<Seq<char>> = seq![];
    let with_bad = before.push(bad) + after;
    let without = before + after;
    assert forall|i: int| 0 <= i < with_bad.len() implies is_block(#[trigger] with_bad[i]) by {
        if i < before.len() {
            assert(with_bad[i] == before[i]);
        } else if i == before.len() {
            assert(with_bad[i] == bad);
        } else {
            assert(with_bad[i] == after[i - before.len() - 1]);
        }
    }
    assert forall|i: int| 0 <= i < without.len() implies is_block(#[trigger] without[i]) by {
        if i < before.len() {
            assert(without[i] == before[i]);
        } else {
            assert(without[i] == after[i - before.len()]);
        }
    }
    lemma_listing_of_blocks(empty, with_bad);
    lemma_listing_of_blocks(empty, without);
    assert(empty + concat_lines(with_bad) =~= concat_lines(with_bad));
    assert(empty + concat_lines(without) =~= concat_lines(without));
    lemma_valid_records_skip(before, bad, after);
}

proof fn lemma_apply_fields_nameless(s: SinkView, lines: Seq<Seq<char>>)
    requires
        forall|i: int| 0 <= i < lines.len() ==> !starts_with(#[trigger] lines[i], NAME_MARKER@),
    ensures
        apply_fields(s, lines).name == s.name,
    decreases lines.len(),
{
    if lines.len() > 0 {
        assert(!starts_with(lines[0], NAME_MARKER@));
        let rest = lines.drop_first();
        assert forall|i: int| 0 <= i < rest.len() implies !starts_with(
            #[trigger] rest[i],
            NAME_MARKER@,
        ) by {
            assert(rest[i] == lines[i + 1]);
        }
        lemma_apply_fields_nameless(apply_field(s, lines[0]), rest);
    }
}

/// A block without a name line builds an invalid record.
pub proof fn lemma_nameless_block_invalid(b: Seq<Seq<char>>)
    requires
        is_block(b),
        forall|i: int| 1 <= i < b.len() ==> !starts_with(#[trigger] b[i], NAME_MARKER@),
    ensures
        !block_record(b).is_valid(),
{
    let rest = b.drop_first();
    assert forall|i: int| 0 <= i < rest.len() implies !starts_with(
        #[trigger] rest[i],
        NAME_MARKER@,
    ) by {
        assert(rest[i] == b[i + 1]);
    }
    lemma_apply_fields_nameless(SinkView { number: header_number(b[0]), ..empty_sink() }, rest);
}

proof fn lemma_first_percent_from(s: Seq<char>, k: int)
    requires
        0 <= k,
    ensures
        match first_percent_from(s, k) {
            Some(i) => k <= i && is_percent_end(s, i) && forall|j: int|
                k <= j < i ==> !is_percent_end(s, j),
            None => forall|j: int| k <= j ==> !is_percent_end(s, j),
        },
    decreases s.len() - k,
{
    if k < s.len() && !is_percent_end(s, k) {
        lemma_first_percent_from(s, k + 1);
    }
}

/// The volume of a line is read from its first percent sign that follows a
/// digit, from the whole run of digits before that sign; other text around it
/// does not matter.
pub proof fn lemma_volume_first_match(line: Seq<char>)
    ensures
        match first_percent_from(line, 0) {
            Some(i) => {
                &&& is_percent_end(line, i)
                &&& forall|j: int| 0 <= j < i ==> !is_percent_end(line, j)
                &&& volume_in_line(line) == digits_as_i32(
                    line.subrange(digit_run_start(line, i), i),
                )
            },
            None => {
                &&& forall|j: int| 0 <= j ==> !is_percent_end(line, j)
                &&& volume_in_line(line) is None
            },
        },
{
    lemma_first_percent_from(line, 0);
}

/// A volume line without a `<digits>%` leaves the record as it was.
pub proof fn lemma_volume_line_without_percent(s: SinkView, line: Seq<char>)
    requires
        starts_with(line, VOLUME_MARKER@),
        forall|j: int| 0 <= j < line.len() ==> !is_percent_end(line, j),
    ensures
        apply_field(s, line) == s,
{
    lemma_first_percent_from(line, 0);
    reveal_strlit("\tVolume: ");
    reveal_strlit("\tName: ");
    reveal_strlit("\tDescription: ");
    reveal_strlit("\tMute: ");
    assert(line.take(9)[1] == 'V');
    if starts_with(line, NAME_MARKER@) {
        assert(line.take(7)[1] == 'N');
    }
    if starts_with(line, DESCRIPTION_MARKER@) {
        assert(line.take(14)[1] == 'D');
    }
    if starts_with(line, MUTE_MARKER@) {
        assert(line.take(7)[1] == 'M');
    }
    if first_percent_from(line, 0) is Some {
        let i = first_percent_from(line, 0)->0;
        assert(is_percent_end(line, i));
    }
}

proof fn lemma_digit_run_len(s: Seq<char>, k: int)
    requires
        0 <= k <= s.len(),
        forall|i: int| 0 <= i < k ==> is_digit(s[i]),
        k == s.len() || !is_digit(s[k]),
    ensures
        digit_run_len(s) == k,
    decreases k,
{
    if k > 0 {
        let t = s.drop_first();
        assert forall|i: int| 0 <= i < k - 1 implies is_digit(t[i]) by {
            assert(t[i] == s[i + 1]);
        }
        lemma_digit_run_len(t, k - 1);
    }
}

/// The number of a header line.
fn header_value(line: &Vec<char>) -> (r: i32)
    requires
        is_header(line@),
    ensures
        r as int == header_number(line@),
{
    let k = SINK_MARKER.unicode_len();
    let mut j: usize = k;
    while j < line.len() && is_digit_char(line[j])
        invariant
            k == SINK_MARKER@.len(),
            k <= j <= line.len(),
            forall|i: int| k <= i < j ==> is_digit(line@[i]),
        decreases line.len() - j,
    {
        j = j + 1;
    }
    proof {
        let rest = line@.skip(k as int);
        lemma_digit_run_len(rest, j - k);
        assert(line@.subrange(k as int, j as int) =~= header_digits(line@));
    }
    match digits_to_i32(line, k, j) {
        Some(n) => n,
        None => -1,
    }
}

/// Whether a line opens a sink block.
pub fn line_is_header(line: &Vec<char>) -> (r: bool)
    ensures
        r == is_header(line@),
{
    let k = SINK_MARKER.unicode_len();
    has_prefix(line, SINK_MARKER) && line.len() > k && is_digit_char(line[k])
}

/// The first `<digits>%` of a line, read as a number.
pub fn volume_of_line(line: &Vec<char>) -> (r: Option<i32>)
    ensures
        r == volume_in_line(line@),
{
    let mut i: usize = 0;
    while i < line.len() && !(i >= 1 && line[i] == '%' && is_digit_char(line[i - 1]))
        invariant
            i <= line.len(),
            first_percent_from(line@, 0) == first_percent_from(line@, i as int),
        decreases line.len() - i,
    {
        i = i + 1;
    }
    if i == line.len() {
        return None;
    }
    let mut j: usize = i;
    while j > 0 && is_digit_char(line[j - 1])
        invariant
            j <= i < line.len(),
            digit_run_start(line@, i as int) == digit_run_start(line@, j as int),
            forall|k: int| j <= k < i ==> is_digit(line@[k]),
        decreases j,
    {
        j = j - 1;
    }
    assert(all_digits(line@.subrange(j as int, i as int)));
    digits_to_i32(line, j, i)
}

/// Whether `line[from..]` holds "yes".
fn holds_yes(line: &Vec<char>, from: usize) -> (r: bool)
    requires
        from <= line.len(),
    ensures
        r == has_yes(line@.skip(from as int)),
{
    let ghost s = line@.skip(from as int);
    let mut i: usize = from;
    while line.len() - i >= 3
        invariant
            from <= i <= line.len(),
            s == line@.skip(from as int),
            forall|k: int|
                0 <= k < i - from ==> !(#[trigger] s[k] == 'y' && s[k + 1] == 'e' && s[k + 2]
                    == 's'),
        decreases line.len() - i,
    {
        if line[i] == 'y' && line[i + 1] == 'e' && line[i + 2] == 's' {
            assert(s[i - from] == 'y');
            return true;
        }
        i = i + 1;
    }
    false
}

/// Reads one field line into the record being built.
fn apply_field_line(sink: &mut Sink, line: &Vec<char>)
    ensures
        final(sink)@ == apply_field(old(sink)@, line@),
{
    if has_prefix(line, NAME_MARKER) {
        sink.name = string_from(line, NAME_MARKER.unicode_len());
    } else if has_prefix(line, DESCRIPTION_MARKER) {
        sink.description = string_from(line, DESCRIPTION_MARKER.unicode_len());
    } else if has_prefix(line, MUTE_MARKER) {
        sink.is_muted = holds_yes(line, MUTE_MARKER.unicode_len());
    } else if has_prefix(line, VOLUME_MARKER) {
        if let Some(v) = volume_of_line(line) {
            sink.volume_percent = v;
        }
    }
}

/// Reads a sink listing line by line: one state change per line, a record
/// being closed at the next header and at the end of the listing.
pub struct SinkParser {
    pub sinks: Vec<Sink>,
    pub current: Option<Sink>,
}

impl View for SinkParser {
    type V = ParseModel;

    open spec fn view(&self) -> ParseModel {
        ParseModel {
            done: sinks_view(self.sinks@),
            current: match self.current {
                Some(s) => Some(s@),
                None => None,
            },
        }
    }
}

impl SinkParser {
    pub fn new() -> (r: SinkParser)
        ensures
            r@ == initial_model(),
    {
        let r = SinkParser { sinks: Vec::new(), current: None };
        assert(r@.done =~= seq![]);
        r
    }

    /// Closes the record being built, keeping it if it is valid.
    pub fn close_block(&mut self)
        ensures
            final(self)@ == (ParseModel { done: flushed(old(self)@), current: None }),
    {
        let cur = self.current.take();
        match cur {
            Some(s) => {
                if s.is_valid() {
                    let ghost before = self.sinks@;
                    self.sinks.push(s);
                    assert(sinks_view(self.sinks@) =~= sinks_view(before).push(s@));
                }
            },
            None => {},
        }
    }

    /// Reads one line of the listing.
    pub fn feed_line(&mut self, line: &Vec<char>)
        ensures
            final(self)@ == step(old(self)@, line@),
    {
        if line_is_header(line) {
            self.close_block();
            let mut s = Sink::default();
            s.number = header_value(line);
            self.current = Some(s);
        } else {
            let cur = self.current.take();
            match cur {
                Some(s) => {
                    let mut s = s;
                    apply_field_line(&mut s, line);
                    self.current = Some(s);
                },
                None => {},
            }
        }
    }

    /// The records read, once the last one is closed.
    pub fn finish(self) -> (r: Vec<Sink>)
        ensures
            sinks_view(r@) == flushed(self@),
    {
        let mut p = self;
        p.close_block();
        p.sinks
    }
}

/// The valid sink records of a listing, in the order of their blocks.
pub fn parse_sinks(text: &str) -> (r: Vec<Sink>)
    ensures
        sinks_view(r@) == parse_model(text@),
{
    let chars = chars_of(text);
    let mut parser = SinkParser::new();
    let mut pos: usize = 0;
    assert(chars@.skip(0) =~= chars@);
    while pos < chars.len()
        invariant
            chars@ == text@,
            pos <= chars.len(),
            flushed(run(parser@, lines_of(chars@.skip(pos as int)))) == parse_model(text@),
        decreases chars.len() - pos,
    {
        let (line, next) = next_line(&chars, pos);
        let ghost before = parser@;
        let ghost rest = lines_of(chars@.skip(next as int));
        parser.feed_line(&line);
        assert((seq![line@] + rest).drop_first() =~= rest);
        pos = next;
    }
    assert(chars@.skip(pos as int) =~= Seq::<char>::empty());
    parser.finish()
}

} // verus!
