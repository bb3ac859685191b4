//! The G-code line encoder: renders a structured command as the bytes that
//! go on the wire, with or without a sequence number and checksum.

use crate::number::digits_value;
use crate::text::{append, is_digit, to_upper, upper, NEWLINE, STAR, UPPER_N};
use vstd::prelude::*;
use vstd::string::StringSliceAdditionalSpecFns;

verus! {

/// The sequence number of the first line of a session.
pub const SEQUENCE_START: i32 = 1;

/// The digits of `n` in base ten, most significant first, without leading
/// zeros.
pub open spec fn decimal_digits(n: nat) -> Seq<u8>
    decreases n,
{
    if n < 10 {
        seq![(48 + n) as u8]
    } else {
        decimal_digits(n / 10).push((48 + n % 10) as u8)
    }
}

/// The shortest decimal notation of `v`: a `-` for a negative number, then
/// its digits.
pub open spec fn decimal(v: int) -> Seq<u8> {
    if v < 0 {
        seq![45u8] + decimal_digits((-v) as nat)
    } else {
        decimal_digits(v as nat)
    }
}

/// Formats an integer with `itoa::Buffer::format`, which writes the decimal
/// notation that `core::fmt` gives an integer: a minus sign for a negative
/// number, then the digits without leading zeros.
#[verifier::external_body]
pub(crate) fn format_integer(v: i128) -> (r: Vec<u8>)
    ensures
        r@ == decimal(v as int),
{
    itoa::Buffer::new().format(v).as_bytes().to_vec()
}

/// The exclusive-or of `acc` with every byte of `s`.
pub open spec fn xor_fold(acc: u8, s: Seq<u8>) -> u8
    decreases s.len(),
{
    if s.len() == 0 {
        acc
    } else {
        xor_fold(acc, s.drop_last()) ^ s.last()
    }
}

/// Folding over a concatenation is folding over its parts in turn.
pub proof fn lemma_xor_fold_concat(acc: u8, a: Seq<u8>, b: Seq<u8>)
    ensures
        xor_fold(acc, a + b) == xor_fold(xor_fold(acc, a), b),
    decreases b.len(),
{
    if b.len() == 0 {
        assert(a + b =~= a);
    } else {
        lemma_xor_fold_concat(acc, a, b.drop_last());
        assert((a + b).drop_last() =~= a + b.drop_last());
    }
}

/// How many bytes the UTF-8 character that starts with `lead` takes; 0 where
/// no character starts with that byte.
pub open spec fn utf8_width(lead: u8) -> nat {
    if lead < 0x80 {
        1
    } else if 0xC0 <= lead < 0xE0 {
        2
    } else if 0xE0 <= lead < 0xF0 {
        3
    } else if 0xF0 <= lead < 0xF8 {
        4
    } else {
        0
    }
}

/// A field's key begins with a whole character.
pub open spec fn key_ok(key: Seq<u8>) -> bool {
    key.len() > 0 && 0 < utf8_width(key[0]) <= key.len()
}

/// What a field's key contributes to the line: its first character, in upper
/// case where that is an ASCII letter.
pub open spec fn label(key: Seq<u8>) -> Seq<u8> {
    seq![upper(key[0])] + key.subrange(1, utf8_width(key[0]) as int)
}

/// A command, or a part of one, as the encoder sees it.
///
/// A number with a fraction arrives as `Text`, in its shortest decimal
/// notation that reads back as the same number; so does a character. A
/// variant without fields is a `Group` without fields.
#[derive(Debug)]
pub enum Value {
    /// An absent optional value or a unit: nothing is written.
    Nothing,
    /// Written as `1` or `0`.
    Bool(bool),
    /// Written in shortest decimal notation.
    Int(i64),
    /// As `Int`, for the numbers beyond it.
    Unsigned(u64),
    /// Written as it stands.
    Text(Vec<u8>),
    /// The parts one after the other: a sequence, a tuple, a map.
    List(Vec<Value>),
    /// A tag followed by labelled fields in the order of their declaration.
    Group { tag: Vec<u8>, fields: Vec<Field> },
}

/// A named field of a `Value::Group`.
#[derive(Debug)]
pub struct Field {
    pub key: Vec<u8>,
    pub value: Value,
}

/// Every field in `v`, at any depth, has a key that begins with a whole
/// character.
pub open spec fn well_formed(v: Value) -> bool
    decreases v, 0nat,
{
    match v {
        Value::List(items) => all_well_formed(items, items@.len()),
        Value::Group { tag, fields } => fields_well_formed(fields, fields@.len()),
        _ => true,
    }
}

/// The first `n` of `items` are well formed.
pub open spec fn all_well_formed(items: Vec<Value>, n: nat) -> bool
    decreases items, n,
{
    if n == 0 || n > items@.len() {
        true
    } else {
        all_well_formed(items, (n - 1) as nat) && well_formed(items@[n - 1])
    }
}

/// The first `n` of `fields` have a key that begins with a whole character
/// and a well-formed value.
pub open spec fn fields_well_formed(fields: Vec<Field>, n: nat) -> bool
    decreases fields, n,
{
    if n == 0 || n > fields@.len() {
        true
    } else {
        &&& fields_well_formed(fields, (n - 1) as nat)
        &&& key_ok(fields@[n - 1].key@)
        &&& well_formed(fields@[n - 1].value)
    }
}

/// The bytes that `v` contributes to a line.
pub open spec fn render(v: Value) -> Seq<u8>
    decreases v, 0nat,
{
    match v {
        Value::Nothing => Seq::empty(),
        Value::Bool(b) => if b {
            seq![49u8]
        } else {
            seq![48u8]
        },
        Value::Int(i) => decimal(i as int),
        Value::Unsigned(u) => decimal(u as int),
        Value::Text(t) => t@,
        Value::List(items) => render_list(items, items@.len()),
        Value::Group { tag, fields } => tag@ + render_fields(fields, fields@.len()),
    }
}

/// The first `n` of `items`, rendered one after the other.
pub open spec fn render_list(items: Vec<Value>, n: nat) -> Seq<u8>
    decreases items, n,
{
    if n == 0 || n > items@.len() {
        Seq::empty()
    } else {
        render_list(items, (n - 1) as nat) + render(items@[n - 1])
    }
}

/// The first `n` of `fields`, each as its label followed by its value.
pub open spec fn render_fields(fields: Vec<Field>, n: nat) -> Seq<u8>
    decreases fields, n,
{
    if n == 0 || n > fields@.len() {
        Seq::empty()
    } else {
        render_fields(fields, (n - 1) as nat) + label(fields@[n - 1].key@) + render(
            fields@[n - 1].value,
        )
    }
}

/// A line without sequence number: the rendered value and a line feed.
pub open spec fn unsequenced_line(v: Value) -> Seq<u8> {
    render(v) + seq![NEWLINE]
}

/// What the checksum of a sequenced line covers: `N`, the sequence number and
/// the rendered value.
pub open spec fn sequenced_body(sequence: i32, v: Value) -> Seq<u8> {
    seq![UPPER_N] + decimal(sequence as int) + render(v)
}

/// `body`, a `*`, the decimal notation of the exclusive-or of the bytes of
/// `body`, and a line feed.
pub open spec fn with_checksum(body: Seq<u8>) -> Seq<u8> {
    body + seq![STAR] + decimal(xor_fold(0, body) as int) + seq![NEWLINE]
}

/// A line with sequence number and checksum.
pub open spec fn sequenced_line(sequence: i32, v: Value) -> Seq<u8> {
    with_checksum(sequenced_body(sequence, v))
}

/// The line that tells a device that the sequence numbers start over at
/// `sequence`.
pub open spec fn resync_line(sequence: i32) -> Seq<u8> {
    "M110 N".spec_bytes() + decimal(sequence as int) + seq![NEWLINE]
}

/// The number that follows `n`; the counter wraps at the end of its range.
pub open spec fn following(n: i32) -> i32 {
    if n == i32::MAX {
        i32::MIN
    } else {
        (n + 1) as i32
    }
}

/// The number drawn by the call that comes after `k` earlier ones, on a
/// counter that stood at `start` before the first.
pub open spec fn nth_drawn(start: i32, k: nat) -> i32
    decreases k,
{
    if k == 0 {
        start
    } else {
        following(nth_drawn(start, (k - 1) as nat))
    }
}

/// A line under construction, with the exclusive-or of its bytes so far.
#[derive(Debug)]
pub struct GcodeLine {
    buffer: Vec<u8>,
    checksum: u8,
}

impl GcodeLine {
    /// The bytes written so far.
    pub closed spec fn bytes(&self) -> Seq<u8> {
        self.buffer@
    }

    /// The running checksum.
    pub closed spec fn sum(&self) -> u8 {
        self.checksum
    }

    /// The running checksum is that of the bytes written so far.
    pub open spec fn consistent(&self) -> bool {
        self.sum() == xor_fold(0, self.bytes())
    }

    /// An empty line.
    pub fn new() -> (line: Self)
        ensures
            line.bytes() == Seq::<u8>::empty(),
            line.consistent(),
    {
        GcodeLine { buffer: Vec::new(), checksum: 0 }
    }

    /// Takes `buf` into the running checksum.
    fn checksum(&mut self, buf: &[u8])
        ensures
            final(self).bytes() == old(self).bytes(),
            final(self).sum() == xor_fold(old(self).sum(), buf@),
    {
        let mut i: usize = 0;
        while i < buf.len()
            invariant
                i <= buf@.len(),
                self.buffer@ == old(self).buffer@,
                self.checksum == xor_fold(old(self).checksum, buf@.subrange(0, i as int)),
            decreases buf@.len() - i,
        {
            self.checksum = self.checksum ^ buf[i];
            i += 1;
            assert(buf@.subrange(0, i as int).drop_last() =~= buf@.subrange(0, i - 1));
        }
        assert(buf@.subrange(0, i as int) =~= buf@);
    }

    /// Appends `buf` to the line.
    pub fn write(&mut self, buf: &[u8])
        requires
            old(self).consistent(),
        ensures
            final(self).bytes() == old(self).bytes() + buf@,
            final(self).consistent(),
    {
        append(&mut self.buffer, buf);
        self.checksum(buf);
        proof {
            lemma_xor_fold_concat(0, old(self).buffer@, buf@);
        }
    }

    /// Appends the rendering of `v` to the line.
    pub fn serialize(&mut self, v: &Value)
        requires
            old(self).consistent(),
            well_formed(*v),
        ensures
            final(self).bytes() == old(self).bytes() + render(*v),
            final(self).consistent(),
        decreases *v,
    {
        match v {
            Value::Nothing => {
                assert(self.bytes() + Seq::<u8>::empty() =~= self.bytes());
            },
            Value::Bool(b) => {
                let digit: u8 = if *b {
                    49
                } else {
                    48
                };
                let mut text: Vec<u8> = Vec::new();
                text.push(digit);
                assert(text@ =~= render(*v));
                self.write(text.as_slice());
            },
            Value::Int(i) => {
                let text = format_integer(*i as i128);
                self.write(text.as_slice());
            },
            Value::Unsigned(u) => {
                let text = format_integer(*u as i128);
                self.write(text.as_slice());
            },
            Value::Text(t) => {
                self.write(t.as_slice());
            },
            Value::List(items) => {
                let mut i: usize = 0;
                assert(self.bytes() + Seq::<u8>::empty() =~= self.bytes());
                while i < items.len()
                    invariant
                        i <= items@.len(),
                        self.consistent(),
                        all_well_formed(*items, items@.len()),
                        *v == Value::List(*items),
                        self.bytes() == old(self).bytes() + render_list(*items, i as nat),
                    decreases items@.len() - i,
                {
                    proof {
                        lemma_all_well_formed(*items, items@.len(), i as int);
                        vstd::std_specs::vec::axiom_vec_index_decreases(*items, i as int);
                        assert(*items == v->List_0);
                    }
                    self.serialize(&items[i]);
                    i += 1;
                    assert(self.bytes() =~= old(self).bytes() + render_list(*items, i as nat));
                }
            },
            Value::Group { tag, fields } => {
                self.write(tag.as_slice());
                let mut i: usize = 0;
                assert(self.bytes() =~= old(self).bytes() + (tag@ + render_fields(*fields, 0)));
                while i < fields.len()
                    invariant
                        i <= fields@.len(),
                        self.consistent(),
                        fields_well_formed(*fields, fields@.len()),
                        *v == (Value::Group { tag: *tag, fields: *fields }),
                        self.bytes() == old(self).bytes() + (tag@ + render_fields(
                            *fields,
                            i as nat,
                        )),
                    decreases fields@.len() - i,
                {
                    proof {
                        lemma_fields_well_formed(*fields, fields@.len(), i as int);
                        vstd::std_specs::vec::axiom_vec_index_decreases(*fields, i as int);
                        assert(*fields == v->fields);
                    }
                    let first = label_of(&fields[i].key);
                    self.write(first.as_slice());
                    self.serialize(&fields[i].value);
                    i += 1;
                    assert(self.bytes() =~= old(self).bytes() + (tag@ + render_fields(
                        *fields,
                        i as nat,
                    )));
                }
            },
        }
    }

    /// Closes the line with `*`, the checksum of what stands before it, and a
    /// line feed.
    pub fn finish_with_checksum(self) -> (line: Vec<u8>)
        requires
            self.consistent(),
        ensures
            line@ == with_checksum(self.bytes()),
    {
        let sum = format_integer(self.checksum as i128);
        let mut line = self.buffer;
        line.push(STAR);
        append(&mut line, sum.as_slice());
        line.push(NEWLINE);
        assert(line@ =~= with_checksum(self.bytes()));
        line
    }

    /// Closes the line with a line feed.
    pub fn finish(self) -> (line: Vec<u8>)
        ensures
            line@ == self.bytes() + seq![NEWLINE],
    {
        let mut line = self.buffer;
        line.push(NEWLINE);
        assert(line@ =~= self.bytes() + seq![NEWLINE]);
        line
    }
}

/// Each of the first `n` items is well formed.
pub proof fn lemma_all_well_formed(items: Vec<Value>, n: nat, i: int)
    requires
        all_well_formed(items, n),
        0 <= i < n <= items@.len(),
    ensures
        well_formed(items@[i]),
    decreases n,
{
    if i < n - 1 {
        lemma_all_well_formed(items, (n - 1) as nat, i);
    }
}

/// Each of the first `n` fields has a good key and a well-formed value.
pub proof fn lemma_fields_well_formed(fields: Vec<Field>, n: nat, i: int)
    requires
        fields_well_formed(fields, n),
        0 <= i < n <= fields@.len(),
    ensures
        key_ok(fields@[i].key@),
        well_formed(fields@[i].value),
    decreases n,
{
    if i < n - 1 {
        lemma_fields_well_formed(fields, (n - 1) as nat, i);
    }
}

/// The label of a field: the first character of its key, in upper case where
/// that is an ASCII letter.
pub fn label_of(key: &Vec<u8>) -> (r: Vec<u8>)
    requires
        key_ok(key@),
    ensures
        r@ == label(key@),
{
    let lead = key[0];
    let width: usize = if lead < 0x80 {
        1
    } else if lead < 0xE0 {
        2
    } else if lead < 0xF0 {
        3
    } else {
        4
    };
    let mut out: Vec<u8> = Vec::new();
    out.push(to_upper(lead));
    let mut i: usize = 1;
    while i < width
        invariant
            1 <= i <= width <= key@.len(),
            out@ == seq![upper(key@[0])] + key@.subrange(1, i as int),
        decreases width - i,
    {
        out.push(key[i]);
        i += 1;
        assert(out@ =~= seq![upper(key@[0])] + key@.subrange(1, i as int));
    }
    out
}

/// Whether every field in `v` has a key that begins with a whole character.
pub fn is_well_formed(v: &Value) -> (r: bool)
    ensures
        r == well_formed(*v),
    decreases *v,
{
    match v {
        Value::List(items) => {
            let mut i: usize = 0;
            while i < items.len()
                invariant
                    i <= items@.len(),
                    *v == Value::List(*items),
                    all_well_formed(*items, i as nat),
                decreases items@.len() - i,
            {
                proof {
                    vstd::std_specs::vec::axiom_vec_index_decreases(*items, i as int);
                    assert(*items == v->List_0);
                }
                if !is_well_formed(&items[i]) {
                    proof {
                        lemma_not_all_well_formed(*items, items@.len(), i as int);
                    }
                    return false;
                }
                i += 1;
            }
            true
        },
        Value::Group { tag, fields } => {
            let mut i: usize = 0;
            while i < fields.len()
                invariant
                    i <= fields@.len(),
                    *v == (Value::Group { tag: *tag, fields: *fields }),
                    fields_well_formed(*fields, i as nat),
                decreases fields@.len() - i,
            {
                proof {
                    vstd::std_specs::vec::axiom_vec_index_decreases(*fields, i as int);
                    assert(*fields == v->fields);
                }
                if !key_is_ok(&fields[i].key) || !is_well_formed(&fields[i].value) {
                    proof {
                        lemma_not_fields_well_formed(*fields, fields@.len(), i as int);
                    }
                    return false;
                }
                i += 1;
            }
            true
        },
        _ => true,
    }
}

/// Whether a key begins with a whole character.
pub fn key_is_ok(key: &Vec<u8>) -> (r: bool)
    ensures
        r == key_ok(key@),
{
    if key.len() == 0 {
        return false;
    }
    let lead = key[0];
    if lead < 0x80 {
        true
    } else if lead < 0xC0 {
        false
    } else if lead < 0xE0 {
        key.len() >= 2
    } else if lead < 0xF0 {
        key.len() >= 3
    } else if lead < 0xF8 {
        key.len() >= 4
    } else {
        false
    }
}

/// One ill-formed item among the first `n` makes them ill formed together.
pub proof fn lemma_not_all_well_formed(items: Vec<Value>, n: nat, i: int)
    requires
        0 <= i < n <= items@.len(),
        !well_formed(items@[i]),
    ensures
        !all_well_formed(items, n),
    decreases n,
{
    if i < n - 1 {
        lemma_not_all_well_formed(items, (n - 1) as nat, i);
    }
}

/// One bad field among the first `n` makes them ill formed together.
pub proof fn lemma_not_fields_well_formed(fields: Vec<Field>, n: nat, i: int)
    requires
        0 <= i < n <= fields@.len(),
        !key_ok(fields@[i].key@) || !well_formed(fields@[i].value),
    ensures
        !fields_well_formed(fields, n),
    decreases n,
{
    if i < n - 1 {
        lemma_not_fields_well_formed(fields, (n - 1) as nat, i);
    }
}

/// Renders `v` as a line without sequence number and checksum.
pub fn serialize_unsequenced(v: &Value) -> (line: Vec<u8>)
    requires
        well_formed(*v),
    ensures
        line@ == unsequenced_line(*v),
{
    let mut line = GcodeLine::new();
    line.serialize(v);
    assert(line.bytes() =~= render(*v));
    line.finish()
}

/// Renders `v` as the line with the given sequence number, closed by its
/// checksum.
pub fn serialize_sequenced(sequence: i32, v: &Value) -> (line: Vec<u8>)
    requires
        well_formed(*v),
    ensures
        line@ == sequenced_line(sequence, *v),
{
    let mut line = GcodeLine::new();
    let mut prefix: Vec<u8> = Vec::new();
    prefix.push(UPPER_N);
    line.write(prefix.as_slice());
    let number = format_integer(sequence as i128);
    line.write(number.as_slice());
    line.serialize(v);
    assert(line.bytes() =~= sequenced_body(sequence, *v));
    line.finish_with_checksum()
}

/// The encoder of a session: it owns the counter from which the lines of the
/// session take their sequence numbers.
#[derive(Debug)]
pub struct Sequenced {
    sequence: i32,
}

impl Sequenced {
    /// The number that the next sequenced line will carry.
    pub closed spec fn upcoming(&self) -> i32 {
        self.sequence
    }

    /// An encoder whose first line carries `SEQUENCE_START`.
    pub fn new() -> (encoder: Self)
        ensures
            encoder.upcoming() == SEQUENCE_START,
    {
        Sequenced { sequence: SEQUENCE_START }
    }

    /// The number that the next sequenced line will carry.
    pub fn sequence(&self) -> (n: i32)
        ensures
            n == self.upcoming(),
    {
        self.sequence
    }

    /// Encodes `v` under the next sequence number, which it returns with the
    /// line, and moves the counter on.
    pub fn serialize(&mut self, v: &Value) -> (r: (i32, Vec<u8>))
        requires
            well_formed(*v),
        ensures
            r.0 == old(self).upcoming(),
            final(self).upcoming() == following(old(self).upcoming()),
            r.1@ == sequenced_line(r.0, *v),
    {
        let sequence = self.sequence;
        self.sequence = sequence.wrapping_add(1);
        (sequence, serialize_sequenced(sequence, v))
    }

    /// Encodes `v` without sequence number and checksum; the counter stays.
    pub fn serialize_unsequenced(&self, v: &Value) -> (line: Vec<u8>)
        requires
            well_formed(*v),
        ensures
            line@ == unsequenced_line(*v),
    {
        serialize_unsequenced(v)
    }

    /// Replaces the counter and tells what to send the device about it. Where
    /// the counter goes back, the device must hear of it before the next
    /// sequenced line: the line to send is returned. Where it does not go
    /// back, there is nothing to send.
    pub fn resync(&mut self, new_sequence: i32) -> (line: Option<Vec<u8>>)
        ensures
            final(self).upcoming() == new_sequence,
            match line {
                Some(bytes) => new_sequence < old(self).upcoming() && bytes@ == resync_line(
                    new_sequence,
                ),
                None => new_sequence >= old(self).upcoming(),
            },
    {
        let back = new_sequence < self.sequence;
        self.sequence = new_sequence;
        if back {
            let mut line: Vec<u8> = Vec::new();
            append(&mut line, "M110 N".as_bytes());
            let number = format_integer(new_sequence as i128);
            append(&mut line, number.as_slice());
            line.push(NEWLINE);
            assert(line@ =~= resync_line(new_sequence));
            Some(line)
        } else {
            None
        }
    }

    /// Replaces the counter: the next sequenced line carries `new_sequence`.
    pub fn set_sequence(&mut self, new_sequence: i32)
        ensures
            final(self).upcoming() == new_sequence,
    {
        self.sequence = new_sequence;
    }
}

impl Default for Sequenced {
    fn default() -> (encoder: Self)
        ensures
            encoder.upcoming() == SEQUENCE_START,
    {
        Sequenced::new()
    }
}

/// The checksum of a sequenced line is the exclusive-or of every byte before
/// its `*`: the line is the sequence number and the value, a `*`, the
/// decimal notation of that exclusive-or, and a line feed.
pub proof fn lemma_checksum_law(sequence: i32, v: Value)
    ensures
        sequenced_line(sequence, v) == sequenced_body(sequence, v) + seq![STAR] + decimal(
            xor_fold(0, sequenced_body(sequence, v)) as int,
        ) + seq![NEWLINE],
        sequenced_body(sequence, v) == seq![UPPER_N] + decimal(sequence as int) + render(v),
{
}

/// The digits of a number are digits, and they are worth the number.
pub proof fn lemma_decimal_digits(n: nat)
    ensures
        decimal_digits(n).len() > 0,
        forall|i: int| 0 <= i < decimal_digits(n).len() ==> is_digit(#[trigger] decimal_digits(n)[i]),
        digits_value(decimal_digits(n)) == n,
    decreases n,
{
    if n < 10 {
        assert(decimal_digits(n).drop_last() =~= Seq::<u8>::empty());
        assert(digits_value(decimal_digits(n).drop_last()) == 0);
    } else {
        lemma_decimal_digits(n / 10);
        assert(decimal_digits(n).drop_last() =~= decimal_digits(n / 10));
    }
}

/// The digits of a number other than 0 do not start with `0`.
pub proof fn lemma_leading_digit(n: nat)
    requires
        n > 0,
    ensures
        decimal_digits(n)[0] != 48,
    decreases n,
{
    if n >= 10 {
        lemma_leading_digit(n / 10);
        lemma_decimal_digits(n / 10);
    }
}

/// Where `b` stands last among the first `n` bytes of `s`; -1 where it does
/// not stand among them.
pub open spec fn last_index_of(s: Seq<u8>, b: u8, n: nat) -> int
    decreases n,
{
    if n == 0 || n > s.len() {
        -1
    } else if s[n - 1] == b {
        n - 1
    } else {
        last_index_of(s, b, (n - 1) as nat)
    }
}

/// A sequenced line can be held to its checksum by whoever receives it:
/// the line ends with a line feed; what stands between its last `*` and the
/// line feed are decimal digits; and they are worth the exclusive-or of every
/// byte before that `*`.
pub proof fn lemma_checksum_reads_back(body: Seq<u8>)
    ensures
        ({
            let line = with_checksum(body);
            let star = last_index_of(line, STAR, line.len());
            let sum = line.subrange(star + 1, line.len() - 1);
            &&& line.last() == NEWLINE
            &&& star == body.len()
            &&& line.subrange(0, star) == body
            &&& sum.len() > 0
            &&& forall|i: int| 0 <= i < sum.len() ==> is_digit(#[trigger] sum[i])
            &&& digits_value(sum) == xor_fold(0, line.subrange(0, star))
        }),
{
    let digits = decimal(xor_fold(0, body) as int);
    let line = with_checksum(body);
    lemma_decimal_digits(xor_fold(0, body) as nat);
    assert(digits == decimal_digits(xor_fold(0, body) as nat));
    assert(line.len() == body.len() + 1 + digits.len() + 1);
    assert(line[body.len() as int] == STAR);
    assert forall|i: int| body.len() < i < line.len() implies line[i] != STAR by {
        if i < line.len() - 1 {
            assert(line[i] == digits[i - body.len() - 1]);
            assert(is_digit(digits[i - body.len() - 1]));
        }
    }
    lemma_last_index_of(line, STAR, line.len(), body.len() as int);
    assert(line.subrange(0, body.len() as int) =~= body);
    assert(line.subrange((body.len() + 1) as int, line.len() - 1) =~= digits);
}

/// The last place of a byte is the place after which it does not stand.
pub proof fn lemma_last_index_of(s: Seq<u8>, b: u8, n: nat, at: int)
    requires
        0 <= at < n <= s.len(),
        s[at] == b,
        forall|i: int| at < i < n ==> s[i] != b,
    ensures
        last_index_of(s, b, n) == at,
    decreases n,
{
    if at < n - 1 {
        lemma_last_index_of(s, b, (n - 1) as nat, at);
    }
}

/// Successive lines of a session carry successive numbers: the call that
/// comes after `k` others draws `start + k`, as long as the counter has not
/// reached the end of its range, so each number is larger than all before it.
pub proof fn lemma_sequence_monotonic(start: i32, k: nat)
    requires
        start + k <= i32::MAX,
    ensures
        nth_drawn(start, k) == start + k,
        forall|j: nat| j < k ==> nth_drawn(start, j) < nth_drawn(start, k),
    decreases k,
{
    if k > 0 {
        lemma_sequence_monotonic(start, (k - 1) as nat);
        assert forall|j: nat| j < k implies nth_drawn(start, j) < nth_drawn(start, k) by {
            if j < k - 1 {
            }
        }
    }
}

/// A fresh encoder numbers its lines 1, 2, 3 and so on.
pub proof fn lemma_sequence_from_start(k: nat)
    requires
        k < i32::MAX,
    ensures
        nth_drawn(SEQUENCE_START, k) == k + 1,
{
    lemma_sequence_monotonic(SEQUENCE_START, k);
}

} // verus!
