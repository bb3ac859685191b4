//! Text as bytes: the classes of bytes that the parsers scan, literal
//! matching with and without regard to case, white space, and lists of byte
//! strings.

use vstd::prelude::*;

verus! {

pub const TAB: u8 = 9;
pub const NEWLINE: u8 = 10;
pub const CARRIAGE_RETURN: u8 = 13;
pub const SPACE: u8 = 32;
pub const STAR: u8 = 42;
pub const PLUS: u8 = 43;
pub const COMMA: u8 = 44;
pub const MINUS: u8 = 45;
pub const DOT: u8 = 46;
pub const ZERO: u8 = 48;
pub const NINE: u8 = 57;
pub const COLON: u8 = 58;
pub const SEMICOLON: u8 = 59;
pub const UPPER_A: u8 = 65;
pub const UPPER_N: u8 = 78;
pub const UPPER_Z: u8 = 90;
pub const UNDERSCORE: u8 = 95;
pub const LOWER_A: u8 = 97;
pub const LOWER_Z: u8 = 122;
pub const OPEN_BRACE: u8 = 123;
pub const CLOSE_BRACE: u8 = 125;

pub open spec fn is_digit(b: u8) -> bool {
    ZERO <= b <= NINE
}

pub open spec fn is_upper(b: u8) -> bool {
    UPPER_A <= b <= UPPER_Z
}

pub open spec fn is_lower(b: u8) -> bool {
    LOWER_A <= b <= LOWER_Z
}

pub open spec fn is_alpha(b: u8) -> bool {
    is_upper(b) || is_lower(b)
}

/// The upper-case form of an ASCII letter; every other byte is itself.
pub open spec fn upper(b: u8) -> u8 {
    if is_lower(b) {
        (b - 32) as u8
    } else {
        b
    }
}

pub open spec fn upper_seq(s: Seq<u8>) -> Seq<u8> {
    Seq::new(s.len(), |i: int| upper(s[i]))
}

pub fn to_upper(b: u8) -> (r: u8)
    ensures
        r == upper(b),
{
    if LOWER_A <= b && b <= LOWER_Z {
        b - 32
    } else {
        b
    }
}

/// A copy of `s` with every ASCII letter in upper case.
pub fn to_upper_vec(s: &[u8]) -> (r: Vec<u8>)
    ensures
        r@ == upper_seq(s@),
{
    let mut out: Vec<u8> = Vec::new();
    let mut i: usize = 0;
    while i < s.len()
        invariant
            i <= s@.len(),
            out@ == upper_seq(s@.subrange(0, i as int)),
        decreases s@.len() - i,
    {
        out.push(to_upper(s[i]));
        i += 1;
        assert(out@ =~= upper_seq(s@.subrange(0, i as int)));
    }
    assert(s@.subrange(0, i as int) =~= s@);
    out
}

/// A class of bytes that a scan runs over.
#[derive(Clone, Copy, Debug)]
pub enum Class {
    /// Space and tab.
    Blank,
    /// Space, tab, carriage return and line feed.
    Whitespace,
    /// `0` to `9`.
    Digit,
    /// ASCII letters.
    Letter,
    /// ASCII letters and digits, `-`, `_` and `.`.
    Name,
    /// Every byte but the given one.
    Until(u8),
    /// Every byte but the two given ones.
    UntilEither(u8, u8),
    /// Every byte but ASCII digits, `.` and `-`.
    UntilNumber,
}

impl Class {
    pub open spec fn holds(self, b: u8) -> bool {
        match self {
            Class::Blank => b == SPACE || b == TAB,
            Class::Whitespace => b == SPACE || b == TAB || b == CARRIAGE_RETURN || b == NEWLINE,
            Class::Digit => is_digit(b),
            Class::Letter => is_alpha(b),
            Class::Name => is_alpha(b) || is_digit(b) || b == MINUS || b == UNDERSCORE || b == DOT,
            Class::Until(x) => b != x,
            Class::UntilEither(x, y) => b != x && b != y,
            Class::UntilNumber => !(is_digit(b) || b == DOT || b == MINUS),
        }
    }

    pub fn test(&self, b: u8) -> (r: bool)
        ensures
            r == self.holds(b),
    {
        match *self {
            Class::Blank => b == SPACE || b == TAB,
            Class::Whitespace => b == SPACE || b == TAB || b == CARRIAGE_RETURN || b == NEWLINE,
            Class::Digit => ZERO <= b && b <= NINE,
            Class::Letter => (UPPER_A <= b && b <= UPPER_Z) || (LOWER_A <= b && b <= LOWER_Z),
            Class::Name => (UPPER_A <= b && b <= UPPER_Z) || (LOWER_A <= b && b <= LOWER_Z) || (ZERO
                <= b && b <= NINE) || b == MINUS || b == UNDERSCORE || b == DOT,
            Class::Until(x) => b != x,
            Class::UntilEither(x, y) => b != x && b != y,
            Class::UntilNumber => !((ZERO <= b && b <= NINE) || b == DOT || b == MINUS),
        }
    }
}

/// Where the longest run of bytes of `class` that starts at `from` ends.
pub open spec fn run_end(s: Seq<u8>, from: int, class: Class) -> int
    decreases s.len() - from,
{
    if 0 <= from < s.len() && class.holds(s[from]) {
        run_end(s, from + 1, class)
    } else {
        from
    }
}

/// The run ends inside the input, every byte of it is of the class, and the
/// byte after it, if there is one, is not.
pub proof fn lemma_run_end(s: Seq<u8>, from: int, class: Class)
    requires
        0 <= from <= s.len(),
    ensures
        from <= run_end(s, from, class) <= s.len(),
        forall|i: int| from <= i < run_end(s, from, class) ==> class.holds(#[trigger] s[i]),
        run_end(s, from, class) < s.len() ==> !class.holds(s[run_end(s, from, class)]),
    decreases s.len() - from,
{
    if from < s.len() && class.holds(s[from]) {
        lemma_run_end(s, from + 1, class);
    }
}

/// A run that starts on a byte of its class is not empty.
pub proof fn lemma_run_end_advances(s: Seq<u8>, from: int, class: Class)
    requires
        0 <= from < s.len(),
        class.holds(s[from]),
    ensures
        from < run_end(s, from, class) <= s.len(),
{
    lemma_run_end(s, from + 1, class);
}

/// A run is decided by the bytes up to its end: where every byte from `from`
/// up to `end` is of the class and the byte at `end`, if there is one, is
/// not, the run ends at `end`.
pub proof fn lemma_run_end_is(s: Seq<u8>, from: int, class: Class, end: int)
    requires
        0 <= from <= end <= s.len(),
        forall|i: int| from <= i < end ==> class.holds(#[trigger] s[i]),
        end < s.len() ==> !class.holds(s[end]),
    ensures
        run_end(s, from, class) == end,
    decreases end - from,
{
    if from < end {
        lemma_run_end_is(s, from + 1, class, end);
    }
}

/// Scans the longest run of bytes of `class` from `from`.
pub fn scan(s: &[u8], from: usize, class: Class) -> (end: usize)
    requires
        from <= s@.len(),
    ensures
        end == run_end(s@, from as int, class),
        from <= end <= s@.len(),
{
    let mut i: usize = from;
    while i < s.len() && class.test(s[i])
        invariant
            from <= i <= s@.len(),
            run_end(s@, from as int, class) == run_end(s@, i as int, class),
        decreases s@.len() - i,
    {
        i += 1;
    }
    i
}

/// How many bytes the white-space character takes that starts at `at` in
/// UTF-8 text; 0 where none starts there. White space is what Unicode calls
/// so: space, tab, line feed, vertical tab, form feed, carriage return, next
/// line, and the spaces and separators beyond ASCII.
pub open spec fn space_width(s: Seq<u8>, at: int) -> int {
    if 0 <= at < s.len() && (s[at] == SPACE || TAB <= s[at] <= CARRIAGE_RETURN) {
        1
    } else if 0 <= at && at + 1 < s.len() && s[at] == 0xC2 && (s[at + 1] == 0x85 || s[at + 1]
        == 0xA0) {
        2
    } else if 0 <= at && at + 2 < s.len() && wide_space(s[at], s[at + 1], s[at + 2]) {
        3
    } else {
        0
    }
}

/// The three bytes are a white-space character: U+1680, U+2000 to U+200A,
/// U+2028, U+2029, U+202F, U+205F or U+3000.
pub open spec fn wide_space(a: u8, b: u8, c: u8) -> bool {
    ||| a == 0xE1 && b == 0x9A && c == 0x80
    ||| a == 0xE2 && b == 0x80 && (0x80 <= c <= 0x8A || c == 0xA8 || c == 0xA9 || c == 0xAF)
    ||| a == 0xE2 && b == 0x81 && c == 0x9F
    ||| a == 0xE3 && b == 0x80 && c == 0x80
}

/// How many bytes the white-space character takes that ends at `to` and
/// starts no earlier than `from`; 0 where none ends there.
pub open spec fn space_width_before(s: Seq<u8>, from: int, to: int) -> int {
    if from <= to - 1 && space_width(s, to - 1) == 1 {
        1
    } else if from <= to - 2 && space_width(s, to - 2) == 2 {
        2
    } else if from <= to - 3 && space_width(s, to - 3) == 3 {
        3
    } else {
        0
    }
}

/// Where the white space ends that starts at `at`.
pub open spec fn space_end(s: Seq<u8>, at: int) -> int
    decreases s.len() - at,
{
    if space_width(s, at) > 0 {
        space_end(s, at + space_width(s, at))
    } else {
        at
    }
}

/// Where the white space starts that ends at `to`, in the text from `from`.
pub open spec fn space_start(s: Seq<u8>, from: int, to: int) -> int
    decreases to - from,
{
    if space_width_before(s, from, to) > 0 {
        space_start(s, from, to - space_width_before(s, from, to))
    } else {
        to
    }
}

/// `s` without the white space at its start and at its end.
pub open spec fn trimmed(s: Seq<u8>) -> Seq<u8> {
    let start = space_end(s, 0);
    s.subrange(start, space_start(s, start, s.len() as int))
}

fn is_wide_space(a: u8, b: u8, c: u8) -> (r: bool)
    ensures
        r == wide_space(a, b, c),
{
    (a == 0xE1 && b == 0x9A && c == 0x80) || (a == 0xE2 && b == 0x80 && ((0x80 <= c && c <= 0x8A)
        || c == 0xA8 || c == 0xA9 || c == 0xAF)) || (a == 0xE2 && b == 0x81 && c == 0x9F) || (a
        == 0xE3 && b == 0x80 && c == 0x80)
}

fn space_at(s: &[u8], at: usize) -> (width: usize)
    requires
        at <= s@.len(),
    ensures
        width == space_width(s@, at as int),
        at + width <= s@.len(),
{
    let left = s.len() - at;
    if left >= 1 && (s[at] == SPACE || (TAB <= s[at] && s[at] <= CARRIAGE_RETURN)) {
        1
    } else if left >= 2 && s[at] == 0xC2 && (s[at + 1] == 0x85 || s[at + 1] == 0xA0) {
        2
    } else if left >= 3 && is_wide_space(s[at], s[at + 1], s[at + 2]) {
        3
    } else {
        0
    }
}

fn space_before(s: &[u8], from: usize, to: usize) -> (width: usize)
    requires
        from <= to <= s@.len(),
    ensures
        width == space_width_before(s@, from as int, to as int),
        from + width <= to,
{
    let room = to - from;
    if room >= 1 && space_at(s, to - 1) == 1 {
        1
    } else if room >= 2 && space_at(s, to - 2) == 2 {
        2
    } else if room >= 3 && space_at(s, to - 3) == 3 {
        3
    } else {
        0
    }
}

/// Takes the white space off the start and the end of `s`.
pub fn trim<'a>(s: &'a [u8]) -> (r: &'a [u8])
    ensures
        r@ == trimmed(s@),
{
    let mut start: usize = 0;
    loop
        invariant
            start <= s@.len() == s.len(),
            space_end(s@, 0) == space_end(s@, start as int),
        ensures
            start <= s@.len(),
            space_end(s@, 0) == start,
        decreases s@.len() - start,
    {
        let width = space_at(s, start);
        if width == 0 {
            break ;
        }
        start += width;
    }
    let mut end: usize = s.len();
    loop
        invariant
            start <= end <= s@.len(),
            space_start(s@, start as int, s@.len() as int) == space_start(
                s@,
                start as int,
                end as int,
            ),
        ensures
            start <= end <= s@.len(),
            space_start(s@, start as int, s@.len() as int) == end,
        decreases end - start,
    {
        let width = space_before(s, start, end);
        if width == 0 {
            break ;
        }
        end -= width;
    }
    slice(s, start, end)
}

/// `lit` stands in `s` at `at`.
pub open spec fn has_at(s: Seq<u8>, at: int, lit: Seq<u8>) -> bool {
    &&& 0 <= at
    &&& at + lit.len() <= s.len()
    &&& s.subrange(at, at + lit.len()) == lit
}

/// `lit` stands in `s` at `at`, letters compared without regard to case.
pub open spec fn has_at_caseless(s: Seq<u8>, at: int, lit: Seq<u8>) -> bool {
    &&& 0 <= at
    &&& at + lit.len() <= s.len()
    &&& upper_seq(s.subrange(at, at + lit.len())) == upper_seq(lit)
}

pub fn starts_at(s: &[u8], at: usize, lit: &[u8]) -> (r: bool)
    requires
        at <= s@.len(),
    ensures
        r == has_at(s@, at as int, lit@),
{
    if lit.len() > s.len() - at {
        return false;
    }
    let mut i: usize = 0;
    while i < lit.len()
        invariant
            at + lit@.len() <= s@.len() == s.len(),
            i <= lit@.len(),
            forall|j: int| 0 <= j < i ==> s@[at + j] == lit@[j],
        decreases lit@.len() - i,
    {
        if s[at + i] != lit[i] {
            assert(s@.subrange(at as int, at + lit@.len())[i as int] != lit@[i as int]);
            return false;
        }
        i += 1;
    }
    assert(s@.subrange(at as int, at + lit@.len()) =~= lit@);
    true
}

pub fn starts_at_caseless(s: &[u8], at: usize, lit: &[u8]) -> (r: bool)
    requires
        at <= s@.len(),
    ensures
        r == has_at_caseless(s@, at as int, lit@),
{
    if lit.len() > s.len() - at {
        return false;
    }
    let mut i: usize = 0;
    while i < lit.len()
        invariant
            at + lit@.len() <= s@.len() == s.len(),
            i <= lit@.len(),
            forall|j: int| 0 <= j < i ==> upper(s@[at + j]) == upper(lit@[j]),
        decreases lit@.len() - i,
    {
        if to_upper(s[at + i]) != to_upper(lit[i]) {
            assert(upper_seq(s@.subrange(at as int, at + lit@.len()))[i as int] != upper_seq(
                lit@,
            )[i as int]);
            return false;
        }
        i += 1;
    }
    assert(upper_seq(s@.subrange(at as int, at + lit@.len())) =~= upper_seq(lit@));
    true
}

/// The position after `lit`, where it stands at `at`.
pub fn skip(s: &[u8], at: usize, lit: &[u8]) -> (r: Option<usize>)
    requires
        at <= s@.len(),
    ensures
        r matches Some(end) ==> has_at(s@, at as int, lit@) && end == at + lit@.len(),
        r is None ==> !has_at(s@, at as int, lit@),
{
    if lit.len() <= s.len() - at && starts_at(s, at, lit) {
        Some(at + lit.len())
    } else {
        None
    }
}

/// The position after `lit`, where it stands at `at` in either case.
pub fn skip_caseless(s: &[u8], at: usize, lit: &[u8]) -> (r: Option<usize>)
    requires
        at <= s@.len(),
    ensures
        r matches Some(end) ==> has_at_caseless(s@, at as int, lit@) && end == at + lit@.len(),
        r is None ==> !has_at_caseless(s@, at as int, lit@),
{
    if lit.len() <= s.len() - at && starts_at_caseless(s, at, lit) {
        Some(at + lit.len())
    } else {
        None
    }
}

pub fn bytes_eq(a: &[u8], b: &[u8]) -> (r: bool)
    ensures
        r == (a@ == b@),
{
    if a.len() != b.len() {
        return false;
    }
    let r = starts_at(a, 0, b);
    proof {
        assert(a@.subrange(0, a@.len() as int) =~= a@);
    }
    r
}

/// A copy of the bytes of `s` from `from` up to `to`.
pub fn copy_range(s: &[u8], from: usize, to: usize) -> (r: Vec<u8>)
    requires
        from <= to <= s@.len(),
    ensures
        r@ == s@.subrange(from as int, to as int),
{
    let mut out: Vec<u8> = Vec::new();
    let mut i: usize = from;
    while i < to
        invariant
            from <= i <= to <= s@.len(),
            out@ == s@.subrange(from as int, i as int),
        decreases to - i,
    {
        out.push(s[i]);
        i += 1;
        assert(out@ =~= s@.subrange(from as int, i as int));
    }
    out
}

/// The views of the items of a list.
pub open spec fn views<T: View>(items: Seq<T>) -> Seq<T::V> {
    Seq::new(items.len(), |i: int| items[i]@)
}

/// Pushing an item onto a list pushes its view onto the views of the list.
pub proof fn lemma_views_push<T: View>(items: Seq<T>, item: T)
    ensures
        views(items.push(item)) == views(items).push(item@),
{
    assert(views(items.push(item)) =~= views(items).push(item@));
}

/// The bytes of `s` from `from` up to `to`, borrowed.
pub fn slice<'a>(s: &'a [u8], from: usize, to: usize) -> (r: &'a [u8])
    requires
        from <= to <= s@.len(),
    ensures
        r@ == s@.subrange(from as int, to as int),
{
    vstd::slice::slice_subrange(s, from, to)
}

/// A copy of `s`.
pub fn own(s: &[u8]) -> (r: Vec<u8>)
    ensures
        r@ == s@,
{
    let copy = copy_range(s, 0, s.len());
    assert(copy@ =~= s@);
    copy
}

/// What a list of byte strings holds, each as a sequence.
pub open spec fn texts(v: Vec<Vec<u8>>) -> Seq<Seq<u8>> {
    Seq::new(v@.len(), |i: int| v@[i]@)
}

/// Pushing a byte string onto a list pushes its bytes onto what the list
/// holds.
pub proof fn lemma_texts_push(before: Vec<Vec<u8>>, after: Vec<Vec<u8>>, item: Vec<u8>)
    requires
        after@ == before@.push(item),
    ensures
        texts(after) == texts(before).push(item@),
{
    assert(texts(after) =~= texts(before).push(item@));
}

/// What a list of borrowed byte strings holds, each as a sequence.
pub open spec fn slices(v: Seq<&[u8]>) -> Seq<Seq<u8>> {
    Seq::new(v.len(), |i: int| v[i]@)
}

/// A copy of a list of byte strings.
pub fn copy_texts(v: &Vec<Vec<u8>>) -> (r: Vec<Vec<u8>>)
    ensures
        texts(r) == texts(*v),
{
    let mut out: Vec<Vec<u8>> = Vec::new();
    let mut i: usize = 0;
    while i < v.len()
        invariant
            i <= v@.len(),
            out@.len() == i,
            forall|j: int| 0 <= j < i ==> out@[j]@ == v@[j]@,
        decreases v@.len() - i,
    {
        out.push(own(v[i].as_slice()));
        i += 1;
    }
    assert(texts(out) =~= texts(*v));
    out
}

/// The first `n` of `items`, with `separator` between each two.
pub open spec fn joined(items: Seq<Seq<u8>>, n: nat, separator: u8) -> Seq<u8>
    decreases n,
{
    if n == 0 || n > items.len() {
        Seq::empty()
    } else if n == 1 {
        items[0]
    } else {
        joined(items, (n - 1) as nat, separator) + seq![separator] + items[n - 1]
    }
}

/// Writes `items` one after the other, with `separator` between each two.
pub fn join(items: &[&[u8]], separator: u8) -> (r: Vec<u8>)
    ensures
        r@ == joined(slices(items@), items@.len() as nat, separator),
{
    let mut out: Vec<u8> = Vec::new();
    let mut i: usize = 0;
    while i < items.len()
        invariant
            i <= items@.len(),
            out@ == joined(slices(items@), i as nat, separator),
        decreases items@.len() - i,
    {
        if i > 0 {
            out.push(separator);
        }
        append(&mut out, items[i]);
        i += 1;
        assert(out@ =~= joined(slices(items@), i as nat, separator));
    }
    out
}

/// Appends `more` to `out`.
pub fn append(out: &mut Vec<u8>, more: &[u8])
    ensures
        final(out)@ == old(out)@ + more@,
{
    let mut i: usize = 0;
    while i < more.len()
        invariant
            i <= more@.len(),
            out@ == old(out)@ + more@.subrange(0, i as int),
        decreases more@.len() - i,
    {
        out.push(more[i]);
        i += 1;
        assert(out@ =~= old(out)@ + more@.subrange(0, i as int));
    }
    assert(more@.subrange(0, i as int) =~= more@);
}

} // verus!
