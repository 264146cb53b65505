use vstd::prelude::*;

use crate::parser::{parse_model, parse_sinks};
use crate::sink::{glyph_of, sinks_view, Sink, SinkView};
use crate::text::{
    chars_of, has_prefix, has_prefix_at, lines_of, next_line, push_char, starts_with,
    string_from,
};

verus! {

/// Opens the line of the server information that names the default sink.
pub const DEFAULT_SINK_MARKER: &'static str = "Default Sink: ";

/// Printed when no sink can be selected.
pub const ERROR_INDICATOR: &'static str = "ERR";

pub const EVENT_PREFIX: &'static str = "Event '";

pub const SINK_EVENT_TAIL: &'static str = "' on sink";

/// The rest of the first line that carries the default-sink marker.
pub open spec fn default_sink_in_lines(lines: Seq<Seq<char>>) -> Option<Seq<char>>
    decreases lines.len(),
{
    if lines.len() == 0 {
        None
    } else if starts_with(lines[0], DEFAULT_SINK_MARKER@) {
        Some(lines[0].skip(DEFAULT_SINK_MARKER@.len() as int))
    } else {
        default_sink_in_lines(lines.drop_first())
    }
}

pub open spec fn default_sink_model(info: Seq<char>) -> Option<Seq<char>> {
    default_sink_in_lines(lines_of(info))
}

pub open spec fn string_opt_view(o: Option<String>) -> Option<Seq<char>> {
    match o {
        Some(s) => Some(s@),
        None => None,
    }
}

proof fn lemma_default_sink_in_lines(lines: Seq<Seq<char>>)
    ensures
        match default_sink_in_lines(lines) {
            Some(r) => exists|i: int|
                0 <= i < lines.len() && #[trigger] lines[i] == DEFAULT_SINK_MARKER@ + r && forall|
                    j: int,
                | 0 <= j < i ==> !starts_with(#[trigger] lines[j], DEFAULT_SINK_MARKER@),
            None => forall|j: int|
                0 <= j < lines.len() ==> !starts_with(#[trigger] lines[j], DEFAULT_SINK_MARKER@),
        },
    decreases lines.len(),
{
    if lines.len() > 0 {
        let rest = lines.drop_first();
        lemma_default_sink_in_lines(rest);
        if starts_with(lines[0], DEFAULT_SINK_MARKER@) {
            let r = lines[0].skip(DEFAULT_SINK_MARKER@.len() as int);
            assert(lines[0] =~= DEFAULT_SINK_MARKER@ + r);
        } else {
            match default_sink_in_lines(rest) {
                Some(r) => {
                    let i = choose|i: int|
                        0 <= i < rest.len() && #[trigger] rest[i] == DEFAULT_SINK_MARKER@ + r
                            && forall|j: int|
                            0 <= j < i ==> !starts_with(#[trigger] rest[j], DEFAULT_SINK_MARKER@);
                    assert(lines[i + 1] == rest[i]);
                    assert forall|j: int| 0 <= j < i + 1 implies !starts_with(
                        #[trigger] lines[j],
                        DEFAULT_SINK_MARKER@,
                    ) by {
                        if j > 0 {
                            assert(lines[j] == rest[j - 1]);
                        }
                    }
                },
                None => {
                    assert forall|j: int| 0 <= j < lines.len() implies !starts_with(
                        #[trigger] lines[j],
                        DEFAULT_SINK_MARKER@,
                    ) by {
                        if j > 0 {
                            assert(lines[j] == rest[j - 1]);
                        }
                    }
                },
            }
        }
    }
}

/// The default sink's name is what follows the marker on the first line that
/// carries it, unmodified: that line is the marker followed by the name.
/// With no such line there is no name.
pub proof fn lemma_default_sink_is_line_rest(info: Seq<char>)
    ensures
        match default_sink_model(info) {
            Some(r) => exists|i: int|
                0 <= i < lines_of(info).len() && #[trigger] lines_of(info)[i] == DEFAULT_SINK_MARKER@
                    + r && forall|j: int|
                    0 <= j < i ==> !starts_with(#[trigger] lines_of(info)[j], DEFAULT_SINK_MARKER@),
            None => forall|j: int|
                0 <= j < lines_of(info).len() ==> !starts_with(
                    #[trigger] lines_of(info)[j],
                    DEFAULT_SINK_MARKER@,
                ),
        },
{
    lemma_default_sink_in_lines(lines_of(info));
}

proof fn lemma_first_named_from(sinks: Seq<SinkView>, name: Seq<char>, k: int)
    requires
        0 <= k,
    ensures
        match first_named_from(sinks, name, k) {
            Some(i) => k <= i < sinks.len() && sinks[i].name == name && forall|j: int|
                k <= j < i ==> sinks[j].name != name,
            None => forall|j: int| k <= j < sinks.len() ==> sinks[j].name != name,
        },
    decreases sinks.len() - k,
{
    if k < sinks.len() && sinks[k].name != name {
        lemma_first_named_from(sinks, name, k + 1);
    }
}

/// With names unique among the records, the record named after the default
/// sink is selected wherever it stands; where no record carries that name the
/// first record is selected; with no record nothing is, and the status line is
/// the error indicator.
pub proof fn lemma_selection_policy(sinks: Seq<SinkView>, d: Seq<char>, b: int)
    requires
        forall|i: int, j: int|
            0 <= i < sinks.len() && 0 <= j < sinks.len() && i != j ==> sinks[i].name
                != sinks[j].name,
    ensures
        0 <= b < sinks.len() && sinks[b].name == d ==> selected_index(sinks, Some(d)) == Some(b),
        (forall|j: int| 0 <= j < sinks.len() ==> sinks[j].name != d) && sinks.len() > 0
            ==> selected_index(sinks, Some(d)) == Some(0int),
        sinks.len() > 0 ==> selected_index(sinks, None) == Some(0int),
        sinks.len() == 0 ==> selected_index(sinks, Some(d)) is None && selected_index(
            sinks,
            None,
        ) is None,
{
    lemma_first_named_from(sinks, d, 0);
}

/// A listing without a valid record gives the error indicator.
pub proof fn lemma_no_record_error(listing: Seq<char>, info: Seq<char>)
    requires
        parse_model(listing).len() == 0,
    ensures
        status_model(listing, info) == ERROR_INDICATOR@,
{
    match default_sink_model(info) {
        Some(d) => lemma_first_named_from(parse_model(listing), d, 0),
        None => {},
    }
}

/// The name of the default sink that the server information declares, with
/// nothing trimmed.
pub fn default_sink_name(info: &str) -> (r: Option<String>)
    ensures
        string_opt_view(r) == default_sink_model(info@),
{
    let chars = chars_of(info);
    let mut pos: usize = 0;
    assert(chars@.skip(0) =~= chars@);
    while pos < chars.len()
        invariant
            chars@ == info@,
            pos <= chars.len(),
            default_sink_in_lines(lines_of(chars@.skip(pos as int))) == default_sink_model(
                info@,
            ),
        decreases chars.len() - pos,
    {
        let (line, next) = next_line(&chars, pos);
        let ghost rest = lines_of(chars@.skip(next as int));
        assert((seq![line@] + rest)[0] == line@);
        assert((seq![line@] + rest).drop_first() =~= rest);
        if has_prefix(&line, DEFAULT_SINK_MARKER) {
            return Some(string_from(&line, DEFAULT_SINK_MARKER.unicode_len()));
        }
        pos = next;
    }
    assert(chars@.skip(pos as int) =~= Seq::<char>::empty());
    None
}

/// The first position from `i` on of a record with the given name.
pub open spec fn first_named_from(sinks: Seq<SinkView>, name: Seq<char>, i: int) -> Option<int>
    decreases sinks.len() - i,
{
    if i < 0 || i >= sinks.len() {
        None
    } else if sinks[i].name == name {
        Some(i)
    } else {
        first_named_from(sinks, name, i + 1)
    }
}

/// The record to show: the first one named after the default sink, else the
/// first one of all.
pub open spec fn selected_index(sinks: Seq<SinkView>, default_name: Option<Seq<char>>) -> Option<
    int,
> {
    let by_name = match default_name {
        Some(d) => first_named_from(sinks, d, 0),
        None => None,
    };
    match by_name {
        Some(i) => Some(i),
        None => if sinks.len() > 0 {
            Some(0)
        } else {
            None
        },
    }
}

/// Which record to show, by position.
pub fn select_sink(sinks: &Vec<Sink>, default_name: &Option<String>) -> (r: Option<usize>)
    ensures
        r is Some ==> r->0 < sinks.len(),
        match r {
            Some(i) => selected_index(sinks_view(sinks@), string_opt_view(*default_name)) == Some(
                i as int,
            ),
            None => selected_index(sinks_view(sinks@), string_opt_view(*default_name)) is None,
        },
{
    let ghost v = sinks_view(sinks@);
    if let Some(d) = default_name.as_ref() {
        let mut i: usize = 0;
        while i < sinks.len()
            invariant
                v == sinks_view(sinks@),
                string_opt_view(*default_name) == Some(d@),
                i <= sinks.len(),
                first_named_from(v, d@, 0) == first_named_from(v, d@, i as int),
            decreases sinks.len() - i,
        {
            assert(v[i as int] == sinks@[i as int]@);
            if sinks[i].name == *d {
                assert(first_named_from(v, d@, i as int) == Some(i as int));
                return Some(i);
            }
            i = i + 1;
        }
    }
    if sinks.len() > 0 {
        Some(0)
    } else {
        None
    }
}

pub open spec fn digit_char(d: nat) -> char {
    ((d + 48) as u8) as char
}

/// The decimal digits of a number, without leading zeros.
pub open spec fn decimal(n: nat) -> Seq<char>
    decreases n,
{
    if n < 10 {
        seq![digit_char(n)]
    } else {
        decimal(n / 10).push(digit_char(n % 10))
    }
}

pub open spec fn signed_decimal(n: int) -> Seq<char> {
    if n < 0 {
        seq!['-'] + decimal((-n) as nat)
    } else {
        decimal(n as nat)
    }
}

/// `s` right-justified in a field of `width` columns.
pub open spec fn pad_left(s: Seq<char>, width: nat) -> Seq<char> {
    if s.len() >= width {
        s
    } else {
        Seq::new((width - s.len()) as nat, |i: int| ' ') + s
    }
}

/// A percentage right-justified in three columns, then a percent sign.
pub open spec fn percent_text(n: int) -> Seq<char> {
    pad_left(signed_decimal(n), 3).push('%')
}

/// The status line of one record: its icon, a space, its volume.
pub open spec fn sink_line(s: SinkView) -> Seq<char> {
    glyph_of(s.icon()) + seq![' '] + percent_text(s.volume_percent)
}

/// The status line for a sink listing and the server information.
pub open spec fn status_model(listing: Seq<char>, info: Seq<char>) -> Seq<char> {
    let sinks = parse_model(listing);
    match selected_index(sinks, default_sink_model(info)) {
        Some(i) => sink_line(sinks[i]),
        None => ERROR_INDICATOR@,
    }
}

fn append_decimal(out: &mut String, n: u64)
    ensures
        final(out)@ == old(out)@ + decimal(n as nat),
    decreases n,
{
    if n >= 10 {
        append_decimal(out, n / 10);
    }
    let c = ((n % 10) as u8 + 48u8) as char;
    push_char(out, c);
    assert(old(out)@ + decimal(n as nat) =~= final(out)@) by {
        if n >= 10 {
            assert(decimal(n as nat) == decimal((n / 10) as nat).push(digit_char((n % 10) as nat)));
        }
    }
}

/// A percentage right-justified in three columns, then a percent sign.
pub fn percent_string(n: i64) -> (r: String)
    ensures
        r@ == percent_text(n as int),
{
    let mut digits = String::new();
    if n < 0 {
        push_char(&mut digits, '-');
        let m: u64 = if n == i64::MIN {
            0x8000_0000_0000_0000
        } else {
            (-n) as u64
        };
        append_decimal(&mut digits, m);
    } else {
        append_decimal(&mut digits, n as u64);
    }
    assert(digits@ =~= signed_decimal(n as int));
    let len = digits.as_str().unicode_len();
    let mut r = String::new();
    let mut k: usize = len;
    while k < 3
        invariant
            len <= k <= 3 || (len > 3 && k == len),
            r@ =~= Seq::new((k - len) as nat, |i: int| ' '),
        decreases 3 - k,
    {
        push_char(&mut r, ' ');
        k = k + 1;
    }
    r.append(digits.as_str());
    push_char(&mut r, '%');
    r
}

/// The status line of one record: its icon, a space, its volume.
pub fn sink_status(sink: &Sink) -> (r: String)
    ensures
        r@ == sink_line(sink@),
{
    let mut r = String::new();
    r.append(sink.icon());
    push_char(&mut r, ' ');
    let p = percent_string(sink.volume_percent as i64);
    r.append(p.as_str());
    assert(r@ =~= sink_line(sink@));
    r
}

/// The status line for a sink listing and the server information: the
/// selected record's line, or the error indicator where none is selected.
pub fn status_line(listing: &str, info: &str) -> (r: String)
    ensures
        r@ == status_model(listing@, info@),
{
    let sinks = parse_sinks(listing);
    let default_name = default_sink_name(info);
    match select_sink(&sinks, &default_name) {
        Some(i) => {
            assert(sinks_view(sinks@)[i as int] == sinks@[i as int]@);
            sink_status(&sinks[i])
        },
        None => String::from_str(ERROR_INDICATOR),
    }
}

/// The first position from `i` on of a single quote.
pub open spec fn quote_from(s: Seq<char>, i: int) -> Option<int>
    decreases s.len() - i,
{
    if i < 0 || i >= s.len() {
        None
    } else if s[i] == '\'' {
        Some(i)
    } else {
        quote_from(s, i + 1)
    }
}

/// An event line about a sink: the event prefix, a quoted event kind, then
/// the sink tail right at the closing quote.
pub open spec fn is_sink_event_line(line: Seq<char>) -> bool {
    &&& starts_with(line, EVENT_PREFIX@)
    &&& match quote_from(line, EVENT_PREFIX@.len() as int) {
        Some(q) => starts_with(line.skip(q), SINK_EVENT_TAIL@),
        None => false,
    }
}

/// Whether a line of the subscription stream calls for a refresh.
pub fn is_sink_event(line: &str) -> (r: bool)
    ensures
        r == is_sink_event_line(line@),
{
    let chars = chars_of(line);
    if !has_prefix(&chars, EVENT_PREFIX) {
        return false;
    }
    let mut q: usize = EVENT_PREFIX.unicode_len();
    while q < chars.len() && chars[q] != '\''
        invariant
            chars@ == line@,
            EVENT_PREFIX@.len() <= q <= chars.len(),
            quote_from(chars@, EVENT_PREFIX@.len() as int) == quote_from(chars@, q as int),
        decreases chars.len() - q,
    {
        q = q + 1;
    }
    if q == chars.len() {
        return false;
    }
    has_prefix_at(&chars, q, SINK_EVENT_TAIL)
}

} // verus!
