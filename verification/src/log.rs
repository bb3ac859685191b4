//! The logger pattern language: a pattern names the numbers to take from the
//! lines of a device, and the text that stands around them.

use crate::encoder::{decimal, format_integer};
use crate::number::{float_end, read_float};
use crate::text::{
    append, copy_range, has_at, is_alpha, is_digit, join, joined, lemma_views_push, own, run_end,
    scan, slice, slices, texts, views, Class, CLOSE_BRACE, COMMA, NEWLINE, OPEN_BRACE, UNDERSCORE,
};
use vstd::prelude::*;
use vstd::string::StringSliceAdditionalSpecFns;

verus! {

/// A part of a pattern, as a plain value.
pub enum SegmentView {
    /// Text that must stand in the line as it is.
    Tag(Seq<u8>),
    /// A single brace that must stand in the line.
    Escaped(u8),
    /// A number to take from the line, under this label.
    Value(Seq<u8>),
}

/// A part of a pattern, borrowed from the text of the pattern.
#[derive(Debug, Clone, Copy, PartialEq, Eq)]
pub enum Segment<'a> {
    Tag(&'a [u8]),
    Escaped(u8),
    Value(&'a [u8]),
}

/// A part of a pattern that owns its text.
#[derive(Debug, Clone, PartialEq, Eq)]
pub enum OwnedSegment {
    Tag(Vec<u8>),
    Escaped(u8),
    Value(Vec<u8>),
}

impl<'a> View for Segment<'a> {
    type V = SegmentView;

    open spec fn view(&self) -> SegmentView {
        match *self {
            Segment::Tag(t) => SegmentView::Tag(t@),
            Segment::Escaped(c) => SegmentView::Escaped(c),
            Segment::Value(l) => SegmentView::Value(l@),
        }
    }
}

impl View for OwnedSegment {
    type V = SegmentView;

    open spec fn view(&self) -> SegmentView {
        match *self {
            OwnedSegment::Tag(t) => SegmentView::Tag(t@),
            OwnedSegment::Escaped(c) => SegmentView::Escaped(c),
            OwnedSegment::Value(l) => SegmentView::Value(l@),
        }
    }
}

impl<'a> Segment<'a> {
    /// The same segment, owning its text.
    pub fn into_owned(self) -> (r: OwnedSegment)
        ensures
            r@ == self@,
    {
        match self {
            Segment::Tag(t) => {
                let copy = own(t);
                OwnedSegment::Tag(copy)
            },
            Segment::Escaped(c) => OwnedSegment::Escaped(c),
            Segment::Value(l) => {
                let copy = own(l);
                OwnedSegment::Value(copy)
            },
        }
    }
}

impl OwnedSegment {
    /// The same segment, borrowing its text.
    pub fn to_borrowed<'a>(&'a self) -> (r: Segment<'a>)
        ensures
            r@ == self@,
    {
        match self {
            OwnedSegment::Tag(t) => Segment::Tag(t.as_slice()),
            OwnedSegment::Escaped(c) => Segment::Escaped(*c),
            OwnedSegment::Value(l) => Segment::Value(l.as_slice()),
        }
    }
}

/// The same pattern, owning its text.
pub fn segments_into_owned(segments: &Vec<Segment<'_>>) -> (r: Vec<OwnedSegment>)
    ensures
        views(r@) == views(segments@),
{
    let mut out: Vec<OwnedSegment> = Vec::new();
    let mut i: usize = 0;
    while i < segments.len()
        invariant
            i <= segments@.len(),
            out@.len() == i,
            forall|j: int| 0 <= j < i ==> out@[j]@ == segments@[j]@,
        decreases segments@.len() - i,
    {
        out.push(segments[i].into_owned());
        i += 1;
    }
    assert(views(out@) =~= views(segments@));
    out
}

/// The same pattern, borrowing its text.
pub fn segments_to_borrowed<'a>(segments: &'a Vec<OwnedSegment>) -> (r: Vec<Segment<'a>>)
    ensures
        views(r@) == views(segments@),
{
    let mut out: Vec<Segment<'a>> = Vec::new();
    let mut i: usize = 0;
    while i < segments.len()
        invariant
            i <= segments@.len(),
            out@.len() == i,
            forall|j: int| 0 <= j < i ==> out@[j]@ == segments@[j]@,
        decreases segments@.len() - i,
    {
        out.push(segments[i].to_borrowed());
        i += 1;
    }
    assert(views(out@) =~= views(segments@));
    out
}

/// Where the name that starts at `at` ends: letters, digits, `-`, `_` and
/// `.`, at least one, that do not begin like a G-code, with a letter and then
/// a digit.
pub open spec fn identifier_end(s: Seq<u8>, at: int) -> Option<int> {
    let end = run_end(s, at, Class::Name);
    if 0 <= at < end && !(is_alpha(s[at]) && at + 1 < s.len() && is_digit(s[at + 1])) {
        Some(end)
    } else {
        None
    }
}

/// Reads a name at `at`. Returns where it ends.
pub fn identifier(s: &[u8], at: usize) -> (r: Option<usize>)
    requires
        at <= s@.len(),
    ensures
        r matches Some(end) ==> identifier_end(s@, at as int) == Some(end as int) && at < end
            <= s@.len(),
        r is None ==> identifier_end(s@, at as int) is None,
{
    let end = scan(s, at, Class::Name);
    if end == at {
        return None;
    }
    if Class::Letter.test(s[at]) && at + 1 < s.len() && Class::Digit.test(s[at + 1]) {
        return None;
    }
    Some(end)
}

/// Text up to the next brace, at least one byte, as a tag.
pub open spec fn tag_at(s: Seq<u8>, at: int) -> Option<(SegmentView, int)> {
    let end = run_end(s, at, Class::UntilEither(OPEN_BRACE, CLOSE_BRACE));
    if 0 <= at < end {
        Some((SegmentView::Tag(s.subrange(at, end)), end))
    } else {
        None
    }
}

/// A doubled brace, which stands for a single one.
pub open spec fn escape_at(s: Seq<u8>, at: int) -> Option<(SegmentView, int)> {
    if 0 <= at && at + 1 < s.len() && s[at] == OPEN_BRACE && s[at + 1] == OPEN_BRACE {
        Some((SegmentView::Escaped(OPEN_BRACE), at + 2))
    } else if 0 <= at && at + 1 < s.len() && s[at] == CLOSE_BRACE && s[at + 1] == CLOSE_BRACE {
        Some((SegmentView::Escaped(CLOSE_BRACE), at + 2))
    } else {
        None
    }
}

/// A name in braces: the label of a number to take.
pub open spec fn value_at(s: Seq<u8>, at: int) -> Option<(SegmentView, int)> {
    if 0 <= at < s.len() && s[at] == OPEN_BRACE {
        match identifier_end(s, at + 1) {
            Some(end) => if end < s.len() && s[end] == CLOSE_BRACE {
                Some((SegmentView::Value(s.subrange(at + 1, end)), end + 1))
            } else {
                None
            },
            None => None,
        }
    } else {
        None
    }
}

/// The segment at `at`: a tag, else a doubled brace, else a label in braces.
pub open spec fn segment_at(s: Seq<u8>, at: int) -> Option<(SegmentView, int)> {
    if tag_at(s, at) is Some {
        tag_at(s, at)
    } else if escape_at(s, at) is Some {
        escape_at(s, at)
    } else {
        value_at(s, at)
    }
}

/// The segments that stand one after the other from `at`, and where the last
/// of them ends.
pub open spec fn segments_from(s: Seq<u8>, at: int) -> (Seq<SegmentView>, int)
    decreases s.len() - at,
{
    match segment_at(s, at) {
        Some((segment, next)) => if at < next <= s.len() {
            let (more, end) = segments_from(s, next);
            (seq![segment] + more, end)
        } else {
            (Seq::empty(), at)
        },
        None => (Seq::empty(), at),
    }
}

/// The pattern at `at`: one segment or more.
pub open spec fn pattern_at(s: Seq<u8>, at: int) -> Option<(Seq<SegmentView>, int)> {
    if segment_at(s, at) is Some {
        Some(segments_from(s, at))
    } else {
        None
    }
}

fn parse_tag<'a>(s: &'a [u8], at: usize) -> (r: Option<(Segment<'a>, usize)>)
    requires
        at <= s@.len(),
    ensures
        match r {
            Some((segment, end)) => tag_at(s@, at as int) == Some((segment@, end as int)) && at
                < end <= s@.len(),
            None => tag_at(s@, at as int) is None,
        },
{
    let end = scan(s, at, Class::UntilEither(OPEN_BRACE, CLOSE_BRACE));
    if end > at {
        Some((Segment::Tag(slice(s, at, end)), end))
    } else {
        None
    }
}

fn parse_escape<'a>(s: &'a [u8], at: usize) -> (r: Option<(Segment<'a>, usize)>)
    requires
        at <= s@.len(),
    ensures
        match r {
            Some((segment, end)) => escape_at(s@, at as int) == Some((segment@, end as int))
                && at < end <= s@.len(),
            None => escape_at(s@, at as int) is None,
        },
{
    if s.len() - at < 2 {
        return None;
    }
    if s[at] == OPEN_BRACE && s[at + 1] == OPEN_BRACE {
        Some((Segment::Escaped(OPEN_BRACE), at + 2))
    } else if s[at] == CLOSE_BRACE && s[at + 1] == CLOSE_BRACE {
        Some((Segment::Escaped(CLOSE_BRACE), at + 2))
    } else {
        None
    }
}

fn parse_value<'a>(s: &'a [u8], at: usize) -> (r: Option<(Segment<'a>, usize)>)
    requires
        at <= s@.len(),
    ensures
        match r {
            Some((segment, end)) => value_at(s@, at as int) == Some((segment@, end as int))
                && at < end <= s@.len(),
            None => value_at(s@, at as int) is None,
        },
{
    if at < s.len() && s[at] == OPEN_BRACE {
        match identifier(s, at + 1) {
            Some(end) => if end < s.len() && s[end] == CLOSE_BRACE {
                Some((Segment::Value(slice(s, at + 1, end)), end + 1))
            } else {
                None
            },
            None => None,
        }
    } else {
        None
    }
}

fn parse_segment<'a>(s: &'a [u8], at: usize) -> (r: Option<(Segment<'a>, usize)>)
    requires
        at <= s@.len(),
    ensures
        match r {
            Some((segment, end)) => segment_at(s@, at as int) == Some((segment@, end as int))
                && at < end <= s@.len(),
            None => segment_at(s@, at as int) is None,
        },
{
    match parse_tag(s, at) {
        Some(found) => Some(found),
        None => match parse_escape(s, at) {
            Some(found) => Some(found),
            None => parse_value(s, at),
        },
    }
}

/// Reads a pattern at `at`: as many segments as stand there, at least one.
/// Returns them with the position after the last.
pub fn parse_segments<'a>(s: &'a [u8], at: usize) -> (r: Option<(Vec<Segment<'a>>, usize)>)
    requires
        at <= s@.len(),
    ensures
        match r {
            Some((segments, end)) => pattern_at(s@, at as int) == Some(
                (views(segments@), end as int),
            ) && at < end <= s@.len(),
            None => pattern_at(s@, at as int) is None,
        },
{
    let mut segments: Vec<Segment<'a>> = Vec::new();
    let mut here: usize = at;
    match parse_segment(s, at) {
        Some((first, next)) => {
            segments.push(first);
            here = next;
            proof {
                assert(views(segments@) =~= seq![first@]);
                assert(views(segments@) + segments_from(s@, here as int).0 =~= segments_from(
                    s@,
                    at as int,
                ).0);
            }
        },
        None => {
            return None;
        },
    }
    loop
        invariant
            at < here <= s@.len(),
            segments_from(s@, at as int).0 == views(segments@) + segments_from(
                s@,
                here as int,
            ).0,
            segments_from(s@, at as int).1 == segments_from(s@, here as int).1,
            pattern_at(s@, at as int) is Some,
        decreases s@.len() - here,
    {
        match parse_segment(s, here) {
            Some((segment, next)) => {
                proof {
                    lemma_views_push(segments@, segment);
                    assert(views(segments@).push(segment@) + segments_from(s@, next as int).0
                        =~= views(segments@) + (seq![segment@] + segments_from(
                        s@,
                        next as int,
                    ).0));
                }
                segments.push(segment);
                here = next;
            },
            None => {
                proof {
                    assert(views(segments@) + Seq::<SegmentView>::empty() =~= views(segments@));
                }
                return Some((segments, here));
            },
        }
    }
}

/// How much of a line is passed over before the pattern is tried: up to the
/// first byte of a leading tag, up to a leading brace, or, before a leading
/// number, up to the first digit, `.` or `-`.
pub open spec fn skipped(first: SegmentView, line: Seq<u8>) -> int {
    match first {
        SegmentView::Tag(tag) => if tag.len() == 0 {
            0
        } else {
            run_end(line, 0, Class::Until(tag[0]))
        },
        SegmentView::Escaped(c) => run_end(line, 0, Class::Until(c)),
        SegmentView::Value(_) => run_end(line, 0, Class::UntilNumber),
    }
}

/// Where one segment ends that is matched at `at`, and the text of the number
/// that it takes, if it takes one. A tag matches itself byte for byte, a
/// brace matches itself, a value matches a decimal number.
pub open spec fn matched(segment: SegmentView, line: Seq<u8>, at: int) -> Option<
    (Option<Seq<u8>>, int),
> {
    match segment {
        SegmentView::Tag(tag) => if has_at(line, at, tag) {
            Some((None, at + tag.len()))
        } else {
            None
        },
        SegmentView::Escaped(c) => if 0 <= at < line.len() && line[at] == c {
            Some((None, at + 1))
        } else {
            None
        },
        SegmentView::Value(_) => match float_end(line, at) {
            Some(end) => Some((Some(line.subrange(at, end)), end)),
            None => None,
        },
    }
}

/// The numbers that the first `n` segments take from `line`, matched one
/// after the other from `start`, and where the last of them ends.
pub open spec fn captured(segments: Seq<SegmentView>, n: nat, line: Seq<u8>, start: int) -> Option<
    (Seq<Seq<u8>>, int),
>
    decreases n,
{
    if n == 0 || n > segments.len() {
        Some((Seq::empty(), start))
    } else {
        match captured(segments, (n - 1) as nat, line, start) {
            Some((values, at)) => match matched(segments[n - 1], line, at) {
                Some((Some(value), end)) => Some((values.push(value), end)),
                Some((None, end)) => Some((values, end)),
                None => None,
            },
            None => None,
        }
    }
}

/// The numbers that a pattern takes from a line, as they stand in it: what
/// comes before the pattern is passed over, every segment must match, and
/// what follows the pattern is ignored.
pub open spec fn extracted(segments: Seq<SegmentView>, line: Seq<u8>) -> Option<Seq<Seq<u8>>> {
    let start = if segments.len() > 0 {
        skipped(segments[0], line)
    } else {
        0
    };
    match captured(segments, segments.len(), line, start) {
        Some((values, _)) => Some(values),
        None => None,
    }
}

/// A pattern made ready to run on the lines of a device.
#[derive(Debug, Clone)]
pub struct LogParser {
    segments: Vec<OwnedSegment>,
}

impl LogParser {
    /// The pattern that this parser runs.
    pub closed spec fn pattern(&self) -> Seq<SegmentView> {
        views(self.segments@)
    }

    /// Where the pattern is first tried in `line`.
    fn skip(&self, line: &[u8]) -> (start: usize)
        ensures
            start <= line@.len(),
            start == if self.pattern().len() > 0 {
                skipped(self.pattern()[0], line@)
            } else {
                0
            },
    {
        if self.segments.len() == 0 {
            return 0;
        }
        match &self.segments[0] {
            OwnedSegment::Tag(tag) => if tag.len() == 0 {
                0
            } else {
                scan(line, 0, Class::Until(tag[0]))
            },
            OwnedSegment::Escaped(c) => scan(line, 0, Class::Until(*c)),
            OwnedSegment::Value(_) => scan(line, 0, Class::UntilNumber),
        }
    }

    /// Runs the pattern on a line. Returns the text of each number that the
    /// pattern takes, in the order of the pattern.
    pub fn parse(&self, line: &[u8]) -> (r: Option<Vec<Vec<u8>>>)
        ensures
            match r {
                Some(values) => extracted(self.pattern(), line@) == Some(texts(values)),
                None => extracted(self.pattern(), line@) is None,
            },
    {
        let start = self.skip(line);
        let mut values: Vec<Vec<u8>> = Vec::new();
        let mut at: usize = start;
        let mut i: usize = 0;
        assert(texts(values) =~= Seq::<Seq<u8>>::empty());
        while i < self.segments.len()
            invariant
                i <= self.segments@.len(),
                at <= line@.len(),
                start == if self.pattern().len() > 0 {
                    skipped(self.pattern()[0], line@)
                } else {
                    0
                },
                captured(self.pattern(), i as nat, line@, start as int) == Some(
                    (texts(values), at as int),
                ),
            decreases self.segments@.len() - i,
        {
            let ghost before = values;
            assert(self.pattern()[i as int] == self.segments@[i as int]@);
            match &self.segments[i] {
                OwnedSegment::Tag(tag) => {
                    match crate::text::skip(line, at, tag.as_slice()) {
                        Some(end) => {
                            at = end;
                        },
                        None => {
                            proof {
                                lemma_captured_fails(
                                    self.pattern(),
                                    (i + 1) as nat,
                                    self.pattern().len(),
                                    line@,
                                    start as int,
                                );
                            }
                            return None;
                        },
                    }
                },
                OwnedSegment::Escaped(c) => {
                    if at < line.len() && line[at] == *c {
                        at = at + 1;
                    } else {
                        proof {
                            lemma_captured_fails(
                                self.pattern(),
                                (i + 1) as nat,
                                self.pattern().len(),
                                line@,
                                start as int,
                            );
                        }
                        return None;
                    }
                },
                OwnedSegment::Value(_) => {
                    match read_float(line, at) {
                        Some(end) => {
                            let value = copy_range(line, at, end);
                            values.push(value);
                            proof {
                                crate::text::lemma_texts_push(before, values, value);
                            }
                            at = end;
                        },
                        None => {
                            proof {
                                lemma_captured_fails(
                                    self.pattern(),
                                    (i + 1) as nat,
                                    self.pattern().len(),
                                    line@,
                                    start as int,
                                );
                            }
                            return None;
                        },
                    }
                },
            }
            i += 1;
        }
        Some(values)
    }
}

/// Where the first `k` segments do not match, the first `n` do not either.
pub proof fn lemma_captured_fails(
    segments: Seq<SegmentView>,
    k: nat,
    n: nat,
    line: Seq<u8>,
    start: int,
)
    requires
        k <= n <= segments.len(),
        captured(segments, k, line, start) is None,
    ensures
        captured(segments, n, line, start) is None,
    decreases n - k,
{
    if k < n {
        lemma_captured_fails(segments, k, (n - 1) as nat, line, start);
    }
}

/// How many of the first `n` segments take a number.
pub open spec fn value_count(segments: Seq<SegmentView>, n: nat) -> nat
    decreases n,
{
    if n == 0 || n > segments.len() {
        0
    } else if segments[n - 1] is Value {
        value_count(segments, (n - 1) as nat) + 1
    } else {
        value_count(segments, (n - 1) as nat)
    }
}

/// What the `k`th segment spells in a line that holds `values` at the places
/// of the pattern: a tag spells itself, a brace itself, and a value the
/// number that belongs to it.
pub open spec fn spelled_by(segments: Seq<SegmentView>, k: int, values: Seq<Seq<u8>>) -> Seq<u8> {
    match segments[k] {
        SegmentView::Tag(tag) => tag,
        SegmentView::Escaped(c) => seq![c],
        SegmentView::Value(_) => values[value_count(segments, k as nat) as int],
    }
}

/// What the first `n` segments spell, one after the other.
pub open spec fn spelled(segments: Seq<SegmentView>, n: nat, values: Seq<Seq<u8>>) -> Seq<u8>
    decreases n,
{
    if n == 0 || n > segments.len() {
        Seq::empty()
    } else {
        spelled(segments, (n - 1) as nat, values) + spelled_by(segments, n - 1, values)
    }
}

/// What fewer segments spell is the beginning of what more segments spell.
pub proof fn lemma_spelled_prefix(
    segments: Seq<SegmentView>,
    values: Seq<Seq<u8>>,
    n: nat,
    m: nat,
)
    requires
        n <= m <= segments.len(),
    ensures
        spelled(segments, n, values).len() <= spelled(segments, m, values).len(),
        spelled(segments, m, values).subrange(0, spelled(segments, n, values).len() as int)
            == spelled(segments, n, values),
    decreases m - n,
{
    if n == m {
        assert(spelled(segments, m, values).subrange(
            0,
            spelled(segments, n, values).len() as int,
        ) =~= spelled(segments, n, values));
    } else {
        lemma_spelled_prefix(segments, values, n, (m - 1) as nat);
        assert(spelled(segments, m, values).subrange(
            0,
            spelled(segments, n, values).len() as int,
        ) =~= spelled(segments, (m - 1) as nat, values).subrange(
            0,
            spelled(segments, n, values).len() as int,
        ));
    }
}

/// Where the `k`th segment stands in a line that holds, after `before`,
/// what the pattern spells: what it spells stands there.
pub proof fn lemma_spelled_in_line(
    segments: Seq<SegmentView>,
    values: Seq<Seq<u8>>,
    before: Seq<u8>,
    after: Seq<u8>,
    k: nat,
)
    requires
        k < segments.len(),
    ensures
        ({
            let line = before + spelled(segments, segments.len(), values) + after;
            let at = before.len() + spelled(segments, k, values).len();
            let end = before.len() + spelled(segments, k + 1, values).len();
            &&& end == at + spelled_by(segments, k as int, values).len()
            &&& end <= line.len()
            &&& line.subrange(at as int, end as int) == spelled_by(segments, k as int, values)
        }),
{
    let whole = spelled(segments, segments.len(), values);
    let line = before + whole + after;
    let head = spelled(segments, k, values);
    let both = spelled(segments, k + 1, values);
    let part = spelled_by(segments, k as int, values);
    lemma_spelled_prefix(segments, values, k + 1, segments.len());
    assert(both == head + part);
    let at = before.len() + head.len();
    let end = before.len() + both.len();
    assert forall|j: int| 0 <= j < part.len() implies line[at + j] == part[j] by {
        assert(whole.subrange(0, both.len() as int)[head.len() + j] == both[head.len() + j]);
    }
    assert(line.subrange(at as int, end as int) =~= part);
}

/// A pattern gives back the numbers of a line that it spells.
///
/// Let `line` hold, after some text, what the pattern spells with `values` at
/// the places of its numbers, and then some more text. Let the search for the
/// pattern stop where that starts, and let each number be read whole where it
/// stands. Then the parser returns `values`.
pub proof fn lemma_pattern_round_trip(
    segments: Seq<SegmentView>,
    values: Seq<Seq<u8>>,
    before: Seq<u8>,
    after: Seq<u8>,
    line: Seq<u8>,
)
    requires
        line == before + spelled(segments, segments.len(), values) + after,
        values.len() == value_count(segments, segments.len()),
        segments.len() > 0 ==> skipped(segments[0], line) == before.len(),
        forall|k: int|
            0 <= k < segments.len() && #[trigger] segments[k] is Value ==> float_end(
                line,
                (before.len() + spelled(segments, k as nat, values).len()) as int,
            ) == Some((before.len() + spelled(segments, (k + 1) as nat, values).len()) as int),
    ensures
        extracted(segments, line) == Some(values),
{
    if segments.len() == 0 {
        assert(captured(segments, 0, line, 0) == Some((Seq::<Seq<u8>>::empty(), 0int)));
        assert(values =~= Seq::<Seq<u8>>::empty());
    } else {
        lemma_captured_spelled(segments, values, before, after, line, segments.len());
        assert(values.subrange(0, values.len() as int) =~= values);
    }
}

/// Matched from where the spelled text starts, the first `n` segments take
/// the numbers that belong to them and end where what they spell ends.
pub proof fn lemma_captured_spelled(
    segments: Seq<SegmentView>,
    values: Seq<Seq<u8>>,
    before: Seq<u8>,
    after: Seq<u8>,
    line: Seq<u8>,
    n: nat,
)
    requires
        n <= segments.len(),
        line == before + spelled(segments, segments.len(), values) + after,
        values.len() == value_count(segments, segments.len()),
        forall|k: int|
            0 <= k < segments.len() && #[trigger] segments[k] is Value ==> float_end(
                line,
                (before.len() + spelled(segments, k as nat, values).len()) as int,
            ) == Some((before.len() + spelled(segments, (k + 1) as nat, values).len()) as int),
    ensures
        value_count(segments, n) <= values.len(),
        captured(segments, n, line, before.len() as int) == Some(
            (
                values.subrange(0, value_count(segments, n) as int),
                (before.len() + spelled(segments, n, values).len()) as int,
            ),
        ),
    decreases n,
{
    lemma_value_count_grows(segments, n, segments.len());
    if n == 0 {
        assert(values.subrange(0, 0) =~= Seq::<Seq<u8>>::empty());
    } else {
        let k = (n - 1) as nat;
        lemma_captured_spelled(segments, values, before, after, line, k);
        lemma_spelled_in_line(segments, values, before, after, k);
        let at = (before.len() + spelled(segments, k, values).len()) as int;
        let end = (before.len() + spelled(segments, n, values).len()) as int;
        let taken = values.subrange(0, value_count(segments, k) as int);
        assert(captured(segments, k, line, before.len() as int) == Some((taken, at)));
        lemma_matched_spelled(segments, values, line, k, at, end);
        if segments[k as int] is Value {
            assert(values.subrange(0, value_count(segments, n) as int) =~= taken.push(
                values[value_count(segments, k) as int],
            ));
        }
    }
}

/// A segment matches what it spells, and takes the number that belongs to it.
pub proof fn lemma_matched_spelled(
    segments: Seq<SegmentView>,
    values: Seq<Seq<u8>>,
    line: Seq<u8>,
    k: nat,
    at: int,
    end: int,
)
    requires
        k < segments.len(),
        0 <= at <= end <= line.len(),
        end == at + spelled_by(segments, k as int, values).len(),
        line.subrange(at, end) == spelled_by(segments, k as int, values),
        segments[k as int] is Value ==> float_end(line, at) == Some(end),
    ensures
        matched(segments[k as int], line, at) == Some(
            (
                if segments[k as int] is Value {
                    Some(values[value_count(segments, k) as int])
                } else {
                    None
                },
                end,
            ),
        ),
{
    match segments[k as int] {
        SegmentView::Tag(tag) => {
            assert(has_at(line, at, tag));
        },
        SegmentView::Escaped(c) => {
            assert(line.subrange(at, end)[0] == c);
        },
        SegmentView::Value(_) => {},
    }
}

/// More segments take no fewer numbers.
pub proof fn lemma_value_count_grows(segments: Seq<SegmentView>, n: nat, m: nat)
    requires
        n <= m <= segments.len(),
    ensures
        value_count(segments, n) <= value_count(segments, m),
        n < m && segments[n as int] is Value ==> value_count(segments, n) < value_count(
            segments,
            m,
        ),
    decreases m - n,
{
    if n < m {
        lemma_value_count_grows(segments, n, (m - 1) as nat);
    }
}

/// Makes a pattern ready to run.
pub fn make_parser(segments: Vec<Segment<'_>>) -> (parser: LogParser)
    ensures
        parser.pattern() == views(segments@),
{
    LogParser { segments: segments_into_owned(&segments) }
}

/// A row of a table in comma-separated form: the items with a comma between
/// each two, and a line feed.
pub open spec fn row(items: Seq<Seq<u8>>) -> Seq<u8> {
    joined(items, items.len(), COMMA) + seq![NEWLINE]
}

/// The labels of the first `n` segments, in the order of the pattern.
pub open spec fn labels(segments: Seq<SegmentView>, n: nat) -> Seq<Seq<u8>>
    decreases n,
{
    if n == 0 || n > segments.len() {
        Seq::empty()
    } else {
        match segments[n - 1] {
            SegmentView::Value(label) => labels(segments, (n - 1) as nat).push(label),
            _ => labels(segments, (n - 1) as nat),
        }
    }
}

/// Writes a row of a table in comma-separated form.
pub fn csv_row(items: &[&[u8]]) -> (r: Vec<u8>)
    ensures
        r@ == row(slices(items@)),
{
    let mut out = join(items, COMMA);
    out.push(NEWLINE);
    out
}

/// The header row of the table that a pattern fills: its labels.
pub fn get_headers(segments: &[Segment<'_>]) -> (header: Vec<u8>)
    ensures
        header@ == row(labels(views(segments@), segments@.len())),
{
    let mut found: Vec<&[u8]> = Vec::new();
    let mut i: usize = 0;
    assert(slices(found@) =~= labels(views(segments@), 0));
    while i < segments.len()
        invariant
            i <= segments@.len(),
            slices(found@) == labels(views(segments@), i as nat),
        decreases segments@.len() - i,
    {
        match segments[i] {
            Segment::Value(label) => {
                proof {
                    lemma_views_push(found@, label);
                }
                found.push(label);
            },
            _ => {},
        }
        i += 1;
    }
    csv_row(found.as_slice())
}

/// The name of the file that a logger writes: the name of the task, `_`, the
/// time it started in seconds, and `.csv`.
pub open spec fn log_file(name: Seq<u8>, seconds: u64) -> Seq<u8> {
    name + seq![UNDERSCORE] + decimal(seconds as int) + ".csv".spec_bytes()
}

/// Names the file that a logger writes.
pub fn log_file_name(name: &[u8], seconds: u64) -> (file: Vec<u8>)
    ensures
        file@ == log_file(name@, seconds),
{
    let mut file: Vec<u8> = Vec::new();
    append(&mut file, name);
    file.push(UNDERSCORE);
    let time = format_integer(seconds as i128);
    append(&mut file, time.as_slice());
    append(&mut file, ".csv".as_bytes());
    assert(file@ =~= log_file(name@, seconds));
    file
}

} // verus!
