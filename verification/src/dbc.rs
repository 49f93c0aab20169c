//! DBC files: message and signal definitions, and the signals of a frame.
//!
//! Of a DBC file only the message lines (`BO_`) and signal lines (`SG_`) are read. No input
//! text makes the parser panic: a line that it cannot read is an error.
use vstd::prelude::*;
use vstd::slice::slice_subrange;
use std::collections::HashMap;

use crate::error::{Error, ErrorView};
use crate::text;
use crate::textmap::TextMap;

verus! {

broadcast use vstd::std_specs::hash::group_hash_axioms;

// ---------------------------------------------------------------------------
// Types
// ---------------------------------------------------------------------------

/// Bit order of a signal.
#[derive(Debug, Clone, Copy, PartialEq, Eq, Structural)]
pub enum ByteOrder {
    /// Intel: the start bit is the least significant, and significance goes up from it.
    LittleEndian,
    /// Motorola: the start bit is the most significant, and significance goes down from it.
    BigEndian,
}

/// Whether the raw value of a signal has a sign.
#[derive(Debug, Clone, Copy, PartialEq, Eq, Structural)]
pub enum ValueType {
    Unsigned,
    Signed,
}

/// A signal of a message. The four numbers of its scale are kept as the literals that the
/// file holds; each of them is a literal that `f64` parsing accepts.
#[derive(Debug, Clone)]
pub struct DbcSignal {
    pub name: String,
    pub start_bit: u8,
    pub length: u8,
    pub byte_order: ByteOrder,
    pub value_type: ValueType,
    pub factor: String,
    pub offset: String,
    pub min: String,
    pub max: String,
    pub unit: String,
}

/// The mathematical value of a [`DbcSignal`].
pub struct DbcSignalView {
    pub name: Seq<char>,
    pub start_bit: u8,
    pub length: u8,
    pub byte_order: ByteOrder,
    pub value_type: ValueType,
    pub factor: Seq<char>,
    pub offset: Seq<char>,
    pub min: Seq<char>,
    pub max: Seq<char>,
    pub unit: Seq<char>,
}

impl View for DbcSignal {
    type V = DbcSignalView;

    open spec fn view(&self) -> DbcSignalView {
        DbcSignalView {
            name: self.name@,
            start_bit: self.start_bit,
            length: self.length,
            byte_order: self.byte_order,
            value_type: self.value_type,
            factor: self.factor@,
            offset: self.offset@,
            min: self.min@,
            max: self.max@,
            unit: self.unit@,
        }
    }
}

/// A message definition.
#[derive(Debug, Clone)]
pub struct DbcMessage {
    pub id: u32,
    pub name: String,
    pub dlc: u8,
    pub signals: Vec<DbcSignal>,
}

/// The mathematical value of a [`DbcMessage`].
pub struct DbcMessageView {
    pub id: u32,
    pub name: Seq<char>,
    pub dlc: u8,
    pub signals: Seq<DbcSignalView>,
}

/// The mathematical values of a list of signals.
pub open spec fn signal_views(s: Seq<DbcSignal>) -> Seq<DbcSignalView> {
    Seq::new(s.len(), |i: int| s[i]@)
}

impl View for DbcMessage {
    type V = DbcMessageView;

    open spec fn view(&self) -> DbcMessageView {
        DbcMessageView {
            id: self.id,
            name: self.name@,
            dlc: self.dlc,
            signals: signal_views(self.signals@),
        }
    }
}

/// The messages of a DBC file, by identifier.
#[derive(Debug, Clone)]
pub struct DbcDatabase {
    pub messages: HashMap<u32, DbcMessage>,
}

/// The messages of a database, by identifier.
pub open spec fn message_views(m: Map<u32, DbcMessage>) -> Map<u32, DbcMessageView> {
    m.map_values(|x: DbcMessage| x@)
}

impl View for DbcDatabase {
    type V = Map<u32, DbcMessageView>;

    open spec fn view(&self) -> Map<u32, DbcMessageView> {
        message_views(self.messages@)
    }
}

impl Default for DbcDatabase {
    fn default() -> (r: DbcDatabase)
        ensures
            r@ == Map::<u32, DbcMessageView>::empty(),
    {
        let r = DbcDatabase { messages: HashMap::new() };
        assert(r@ =~= Map::<u32, DbcMessageView>::empty());
        r
    }
}

// ---------------------------------------------------------------------------
// Signal lines
// ---------------------------------------------------------------------------

/// An error with the given text.
pub open spec fn refused(s: Seq<char>) -> ErrorView {
    ErrorView::Other(s)
}

/// Where a signal lies in a frame and how its bits read.
pub struct Layout {
    pub start_bit: u8,
    pub length: u8,
    pub byte_order: ByteOrder,
    pub value_type: ValueType,
}

/// The layout that `<start_bit>|<length>@<byte_order><value_type>` writes.
pub open spec fn layout_of(s: Seq<char>) -> Result<Layout, ErrorView> {
    match (s.index_of_first('|'), s.index_of_first('@')) {
        (None, _) => Err(refused("dbc: missing '|' in signal layout"@)),
        (_, None) => Err(refused("dbc: missing '@' in signal layout"@)),
        (Some(pipe), Some(at)) => {
            let start = s.take(pipe);
            let len = s.subrange(pipe + 1, at);
            let flags = s.skip(at + 1);
            match text::parse_number(start, 10, 255) {
                None => Err(refused("dbc: invalid start bit: '"@ + start + "'"@)),
                Some(start_bit) => match text::parse_number(len, 10, 255) {
                    None => Err(refused("dbc: invalid signal length: '"@ + len + "'"@)),
                    Some(length) => {
                        let order = if flags.len() > 0 { Some(flags[0]) } else { None };
                        let sign = if flags.len() > 1 { Some(flags[1]) } else { None };
                        if order != Some('1') && order != Some('0') {
                            Err(
                                refused(
                                    "dbc: unknown byte order: "@ + text::debug_option_text(order),
                                ),
                            )
                        } else if sign != Some('+') && sign != Some('-') {
                            Err(
                                refused("dbc: unknown value type: "@ + text::debug_option_text(sign)),
                            )
                        } else {
                            Ok(
                                Layout {
                                    start_bit: start_bit as u8,
                                    length: length as u8,
                                    byte_order: if order == Some('1') {
                                        ByteOrder::LittleEndian
                                    } else {
                                        ByteOrder::BigEndian
                                    },
                                    value_type: if sign == Some('+') {
                                        ValueType::Unsigned
                                    } else {
                                        ValueType::Signed
                                    },
                                },
                            )
                        }
                    },
                },
            }
        },
    }
}

/// Text that has no `@` in front of its first `|` or no number there.
proof fn lemma_at_behind_pipe(s: Seq<char>, pipe: int, at: int)
    requires
        s.index_of_first('|') == Some(pipe),
        s.index_of_first('@') == Some(at),
        text::parse_number(s.take(pipe), 10, 255) is Some,
    ensures
        0 <= pipe < at < s.len(),
{
    s.index_of_first_ensures('|');
    s.index_of_first_ensures('@');
    if at < pipe {
        let t = s.take(pipe);
        let d = text::without_plus(t);
        let j = if t.len() > 1 && t[0] == '+' { at - 1 } else { at };
        assert(t[at] == '@');
        assert(d[j] == '@');
        assert(text::digit_value(d[j]) == 16);
    }
}

fn quoted(what: &str, s: &[char]) -> (e: Error)
    ensures
        e@ == refused(what@ + s@ + "'"@),
{
    let t = text::string_of(s);
    Error::Other(text::join3(what, t.as_str(), "'"))
}

fn parse_layout(s: &[char]) -> (r: Result<Layout, Error>)
    ensures
        match r {
            Ok(l) => layout_of(s@) == Ok::<Layout, ErrorView>(l),
            Err(e) => layout_of(s@) == Err::<Layout, ErrorView>(e@),
        },
{
    let n: usize = s.len();
    let pipe: usize = match text::find(s, '|') {
        Some(i) => i,
        None => return Err(Error::other("dbc: missing '|' in signal layout")),
    };
    let at: usize = match text::find(s, '@') {
        Some(i) => i,
        None => return Err(Error::other("dbc: missing '@' in signal layout")),
    };
    let start = slice_subrange(s, 0, pipe);
    assert(start@ =~= s@.take(pipe as int));
    let start_bit: u64 = match text::parse_unsigned(start, 10, 255) {
        Some(v) => v,
        None => return Err(quoted("dbc: invalid start bit: '", start)),
    };
    proof {
        lemma_at_behind_pipe(s@, pipe as int, at as int);
    }
    let len = slice_subrange(s, pipe + 1, at);
    let length: u64 = match text::parse_unsigned(len, 10, 255) {
        Some(v) => v,
        None => return Err(quoted("dbc: invalid signal length: '", len)),
    };
    let flags = slice_subrange(s, at + 1, n);
    assert(flags@ =~= s@.skip(at + 1));
    let order: Option<char> = if flags.len() > 0 { Some(flags[0]) } else { None };
    let byte_order = match order {
        Some('1') => ByteOrder::LittleEndian,
        Some('0') => ByteOrder::BigEndian,
        _ => {
            let shown = text::debug_option_string(order);
            return Err(Error::Other(text::join2("dbc: unknown byte order: ", shown.as_str())));
        },
    };
    let sign: Option<char> = if flags.len() > 1 { Some(flags[1]) } else { None };
    let value_type = match sign {
        Some('+') => ValueType::Unsigned,
        Some('-') => ValueType::Signed,
        _ => {
            let shown = text::debug_option_string(sign);
            return Err(Error::Other(text::join2("dbc: unknown value type: ", shown.as_str())));
        },
    };
    Ok(Layout { start_bit: start_bit as u8, length: length as u8, byte_order, value_type })
}

/// The factor and the offset that `(<factor>,<offset>)` writes, and the text behind it.
pub open spec fn scale_of(s: Seq<char>) -> Result<(Seq<char>, Seq<char>, Seq<char>), ErrorView> {
    match (s.index_of_first('('), s.index_of_first(')')) {
        (None, _) => Err(refused("dbc: missing '(' in signal"@)),
        (_, None) => Err(refused("dbc: missing ')' in signal"@)),
        (Some(left), Some(right)) => {
            let inner = s.subrange(left + 1, right);
            if right < left {
                Err(refused("dbc: ')' before '(' in signal"@))
            } else {
                match inner.index_of_first(',') {
                    None => Err(refused("dbc: missing ',' in factor/offset"@)),
                    Some(comma) => if !text::is_float(inner.take(comma)) {
                        Err(refused("dbc: invalid factor"@))
                    } else if !text::is_float(inner.skip(comma + 1)) {
                        Err(refused("dbc: invalid offset"@))
                    } else {
                        Ok(
                            (
                                inner.take(comma),
                                inner.skip(comma + 1),
                                text::trimmed(s.skip(right + 1)),
                            ),
                        )
                    },
                }
            }
        },
    }
}

fn parse_scale(s: &[char]) -> (r: Result<(&[char], &[char], &[char]), Error>)
    ensures
        match r {
            Ok(t) => scale_of(s@) == Ok::<(Seq<char>, Seq<char>, Seq<char>), ErrorView>(
                (t.0@, t.1@, t.2@),
            ),
            Err(e) => scale_of(s@) == Err::<(Seq<char>, Seq<char>, Seq<char>), ErrorView>(e@),
        },
{
    let n: usize = s.len();
    let left: usize = match text::find(s, '(') {
        Some(i) => i,
        None => return Err(Error::other("dbc: missing '(' in signal")),
    };
    let right: usize = match text::find(s, ')') {
        Some(i) => i,
        None => return Err(Error::other("dbc: missing ')' in signal")),
    };
    if right < left {
        return Err(Error::other("dbc: ')' before '(' in signal"));
    }
    let inner = slice_subrange(s, left + 1, right);
    let m: usize = inner.len();
    let comma: usize = match text::find(inner, ',') {
        Some(i) => i,
        None => return Err(Error::other("dbc: missing ',' in factor/offset")),
    };
    let factor = slice_subrange(inner, 0, comma);
    let offset = slice_subrange(inner, comma + 1, m);
    assert(factor@ =~= inner@.take(comma as int));
    assert(offset@ =~= inner@.skip(comma + 1));
    if !text::float_literal(factor) {
        return Err(Error::other("dbc: invalid factor"));
    }
    if !text::float_literal(offset) {
        return Err(Error::other("dbc: invalid offset"));
    }
    let tail = slice_subrange(s, right + 1, n);
    assert(tail@ =~= s@.skip(right + 1));
    Ok((factor, offset, text::trim(tail)))
}

/// A number literal, or zero where the text is none.
pub open spec fn number_or_zero(s: Seq<char>) -> Seq<char> {
    if text::is_float(s) { s } else { "0"@ }
}

/// The position of a character, or 0 where it does not occur.
pub open spec fn position_or_zero(s: Seq<char>, c: char) -> int {
    match s.index_of_first(c) {
        Some(i) => i,
        None => 0,
    }
}

/// The limits that `[<min>|<max>]` writes, and the text behind it. A limit that is missing
/// or no number is zero. Where there is no `]`, only the first character is taken off the
/// text; it has to be an ASCII character then, as where there is no `[`.
pub open spec fn range_of(s: Seq<char>) -> Result<(Seq<char>, Seq<char>, Seq<char>), ErrorView> {
    let left = position_or_zero(s, '[');
    let right = position_or_zero(s, ']');
    let inner = s.subrange(left + 1, right);
    if s.len() > 0 && s[0] as u32 >= 128 && (right == 0 || left == 0) {
        Err(refused("dbc: malformed range in signal"@))
    } else {
        let rest = if s.len() > 0 { text::trimmed(s.skip(right + 1)) } else { Seq::empty() };
        if left < right {
            match inner.index_of_first('|') {
                Some(pipe) => Ok(
                    (
                        number_or_zero(inner.take(pipe)),
                        number_or_zero(inner.skip(pipe + 1)),
                        rest,
                    ),
                ),
                None => Ok((number_or_zero(inner), "0"@, rest)),
            }
        } else {
            Ok(("0"@, "0"@, rest))
        }
    }
}

fn number_text_or_zero(s: &[char]) -> (r: String)
    ensures
        r@ == number_or_zero(s@),
{
    if text::float_literal(s) {
        text::string_of(s)
    } else {
        "0".to_owned()
    }
}

fn parse_range(s: &[char]) -> (r: Result<(String, String, &[char]), Error>)
    ensures
        match r {
            Ok(t) => range_of(s@) == Ok::<(Seq<char>, Seq<char>, Seq<char>), ErrorView>(
                (t.0@, t.1@, t.2@),
            ),
            Err(e) => range_of(s@) == Err::<(Seq<char>, Seq<char>, Seq<char>), ErrorView>(e@),
        },
{
    let n: usize = s.len();
    let left: usize = match text::find(s, '[') {
        Some(i) => i,
        None => 0,
    };
    let right: usize = match text::find(s, ']') {
        Some(i) => i,
        None => 0,
    };
    if n > 0 && s[0] as u32 >= 128 && (right == 0 || left == 0) {
        return Err(Error::other("dbc: malformed range in signal"));
    }
    let rest: &[char] = if n > 0 {
        let tail = slice_subrange(s, right + 1, n);
        assert(tail@ =~= s@.skip(right + 1));
        text::trim(tail)
    } else {
        slice_subrange(s, 0, 0)
    };
    assert(n == 0 ==> rest@ =~= Seq::empty());
    if left < right {
        let inner = slice_subrange(s, left + 1, right);
        let m: usize = inner.len();
        match text::find(inner, '|') {
            Some(pipe) => {
                let a = slice_subrange(inner, 0, pipe);
                let b = slice_subrange(inner, pipe + 1, m);
                assert(a@ =~= inner@.take(pipe as int));
                assert(b@ =~= inner@.skip(pipe + 1));
                Ok((number_text_or_zero(a), number_text_or_zero(b), rest))
            },
            None => Ok((number_text_or_zero(inner), "0".to_owned(), rest)),
        }
    } else {
        Ok(("0".to_owned(), "0".to_owned(), rest))
    }
}

/// The unit that `"<unit>"` writes at the front of the text: nothing where there is no
/// quote. Where the closing quote is missing the last character, which has to be an ASCII
/// character, stands for it.
pub open spec fn unit_of(s: Seq<char>) -> Result<Seq<char>, ErrorView> {
    if s.len() == 0 || s[0] != '"' {
        Ok(Seq::empty())
    } else {
        match s.skip(1).index_of_first('"') {
            Some(i) => Ok(s.subrange(1, i + 1)),
            None => if s.len() == 1 || s.last() as u32 >= 128 {
                Err(refused("dbc: unterminated unit in signal"@))
            } else {
                Ok(s.subrange(1, s.len() - 1))
            },
        }
    }
}

fn parse_unit(s: &[char]) -> (r: Result<String, Error>)
    ensures
        match r {
            Ok(u) => unit_of(s@) == Ok::<Seq<char>, ErrorView>(u@),
            Err(e) => unit_of(s@) == Err::<Seq<char>, ErrorView>(e@),
        },
{
    let n: usize = s.len();
    if n == 0 || s[0] != '"' {
        return Ok(String::new());
    }
    let body = slice_subrange(s, 1, n);
    assert(body@ =~= s@.skip(1));
    match text::find(body, '"') {
        Some(i) => Ok(text::string_of(slice_subrange(s, 1, i + 1))),
        None => {
            if n == 1 || s[n - 1] as u32 >= 128 {
                return Err(Error::other("dbc: unterminated unit in signal"));
            }
            Ok(text::string_of(slice_subrange(s, 1, n - 1)))
        },
    }
}

/// The first field of a text, which may be followed by a multiplexer mark.
pub open spec fn first_word(s: Seq<char>) -> Seq<char> {
    if text::words(s).len() > 0 { text::words(s)[0] } else { s }
}

/// The signal that a line beginning with `SG_ ` defines:
/// `SG_ <name> : <layout> (<factor>,<offset>) [<min>|<max>] "<unit>" <receivers>`.
pub open spec fn signal_of(line: Seq<char>) -> Result<DbcSignalView, ErrorView> {
    match line.index_of_first(':') {
        None => Err(refused("dbc: missing ':' in SG_ line: '"@ + line + "'"@)),
        Some(colon) => {
            let name = first_word(text::trimmed(line.subrange(4, colon)));
            let rest = text::trimmed(line.skip(colon + 1));
            match rest.index_of_first(' ') {
                None => Err(refused("dbc: malformed SG_ layout: '"@ + rest + "'"@)),
                Some(blank) => match layout_of(rest.take(blank)) {
                    Err(e) => Err(e),
                    Ok(layout) => match scale_of(text::trimmed(rest.skip(blank))) {
                        Err(e) => Err(e),
                        Ok((factor, offset, rest2)) => match range_of(rest2) {
                            Err(e) => Err(e),
                            Ok((min, max, rest3)) => match unit_of(rest3) {
                                Err(e) => Err(e),
                                Ok(unit) => Ok(
                                    DbcSignalView {
                                        name,
                                        start_bit: layout.start_bit,
                                        length: layout.length,
                                        byte_order: layout.byte_order,
                                        value_type: layout.value_type,
                                        factor,
                                        offset,
                                        min,
                                        max,
                                        unit,
                                    },
                                ),
                            },
                        },
                    },
                },
            }
        },
    }
}

fn name_of(s: &[char]) -> (r: String)
    ensures
        r@ == first_word(text::trimmed(s@)),
{
    let t = text::trim(s);
    let w = text::split_whitespace(t);
    if w.len() > 0 {
        assert(text::pieces(w@)[0] == w@[0]@);
        text::string_of(w[0])
    } else {
        assert(text::pieces(w@).len() == 0);
        text::string_of(t)
    }
}

/// Reads a signal line, without white space at its ends.
pub fn parse_signal_line(line: &[char]) -> (r: Result<DbcSignal, Error>)
    requires
        text::has_prefix(line@, "SG_ "@),
    ensures
        match r {
            Ok(s) => signal_of(line@) == Ok::<DbcSignalView, ErrorView>(s@),
            Err(e) => signal_of(line@) == Err::<DbcSignalView, ErrorView>(e@),
        },
{
    let n: usize = line.len();
    let colon: usize = match text::find(line, ':') {
        Some(i) => i,
        None => return Err(quoted("dbc: missing ':' in SG_ line: '", line)),
    };
    proof {
        reveal_strlit("SG_ ");
        assert(line@.take(4) == "SG_ "@);
        assert(line@[0] == line@.take(4)[0] && line@[1] == line@.take(4)[1] && line@[2]
            == line@.take(4)[2] && line@[3] == line@.take(4)[3]);
        assert(colon >= 4);
    }
    let name = name_of(slice_subrange(line, 4, colon));
    let behind = slice_subrange(line, colon + 1, n);
    assert(behind@ =~= line@.skip(colon + 1));
    let rest = text::trim(behind);
    let m: usize = rest.len();
    let blank: usize = match text::find(rest, ' ') {
        Some(i) => i,
        None => return Err(quoted("dbc: malformed SG_ layout: '", rest)),
    };
    let head = slice_subrange(rest, 0, blank);
    assert(head@ =~= rest@.take(blank as int));
    let layout = match parse_layout(head) {
        Ok(l) => l,
        Err(e) => return Err(e),
    };
    let tail = slice_subrange(rest, blank, m);
    assert(tail@ =~= rest@.skip(blank as int));
    let (factor, offset, rest2) = match parse_scale(text::trim(tail)) {
        Ok(t) => t,
        Err(e) => return Err(e),
    };
    let (min, max, rest3) = match parse_range(rest2) {
        Ok(t) => t,
        Err(e) => return Err(e),
    };
    let unit = match parse_unit(rest3) {
        Ok(u) => u,
        Err(e) => return Err(e),
    };
    Ok(
        DbcSignal {
            name,
            start_bit: layout.start_bit,
            length: layout.length,
            byte_order: layout.byte_order,
            value_type: layout.value_type,
            factor: text::string_of(factor),
            offset: text::string_of(offset),
            min,
            max,
            unit,
        },
    )
}

/// The four numbers of every signal that is read are literals of floating-point numbers.
pub proof fn scale_is_made_of_literals(line: Seq<char>)
    ensures
        signal_of(line) matches Ok(s) ==> text::is_float(s.factor) && text::is_float(s.offset)
            && text::is_float(s.min) && text::is_float(s.max),
{
    reveal_strlit("0");
    assert(text::is_float("0"@)) by {
        let z = "0"@;
        assert(text::without_sign(z) =~= z);
        reveal_with_fuel(text::digits_len, 2);
        assert(z.skip(1).len() == 0);
        assert(text::digits_len(z) == 1);
        assert(z.skip(1) =~= Seq::empty());
        assert(text::is_decimal(z));
    }
}

// ---------------------------------------------------------------------------
// Message lines
// ---------------------------------------------------------------------------

/// The message that a line `BO_ <id> <name>: <dlc> <sender>` defines, without signals.
pub open spec fn message_of(line: Seq<char>) -> Result<DbcMessageView, ErrorView> {
    let parts = text::split_at_most(line, 5, ' ');
    if parts.len() < 4 {
        Err(refused("dbc: malformed BO_ line: '"@ + line + "'"@))
    } else {
        match text::parse_number(parts[1], 10, u32::MAX as nat) {
            None => Err(refused("dbc: invalid message ID: '"@ + parts[1] + "'"@)),
            Some(id) => match text::parse_number(parts[3], 10, 255) {
                None => Err(refused("dbc: invalid DLC: '"@ + parts[3] + "'"@)),
                Some(dlc) => Ok(
                    DbcMessageView {
                        id: id as u32,
                        name: text::trim_end_of(parts[2], ':'),
                        dlc: dlc as u8,
                        signals: Seq::empty(),
                    },
                ),
            },
        }
    }
}

/// Reads a message line.
pub fn parse_message_line(line: &[char]) -> (r: Result<DbcMessage, Error>)
    ensures
        match r {
            Ok(m) => message_of(line@) == Ok::<DbcMessageView, ErrorView>(m@),
            Err(e) => message_of(line@) == Err::<DbcMessageView, ErrorView>(e@),
        },
{
    let parts = text::splitn(line, 5, ' ');
    let ghost views = text::pieces(parts@);
    if parts.len() < 4 {
        return Err(quoted("dbc: malformed BO_ line: '", line));
    }
    assert(views[1] == parts@[1]@ && views[2] == parts@[2]@ && views[3] == parts@[3]@);
    let id: u64 = match text::parse_unsigned(parts[1], 10, 0xFFFF_FFFF) {
        Some(v) => v,
        None => return Err(quoted("dbc: invalid message ID: '", parts[1])),
    };
    let name = text::string_of(text::trim_end_matches(parts[2], ':'));
    let dlc: u64 = match text::parse_unsigned(parts[3], 10, 255) {
        Some(v) => v,
        None => return Err(quoted("dbc: invalid DLC: '", parts[3])),
    };
    let m = DbcMessage { id: id as u32, name, dlc: dlc as u8, signals: Vec::new() };
    assert(m@.signals =~= Seq::empty());
    Ok(m)
}

// ---------------------------------------------------------------------------
// Files
// ---------------------------------------------------------------------------

/// The database with the message that was being read, if there was one. A message takes
/// the place of an earlier one with its identifier.
pub open spec fn committed(
    db: Map<u32, DbcMessageView>,
    current: Option<DbcMessageView>,
) -> Map<u32, DbcMessageView> {
    match current {
        Some(m) => db.insert(m.id, m),
        None => db,
    }
}

/// The database that the lines of a file define, when `db` was read before them and
/// `current` is the message whose signals are being read. A message line begins a message,
/// signal lines add to it, and any other line, a blank one or a comment included, ends it.
/// Signal lines outside a message are passed over.
pub open spec fn database_of(
    lines: Seq<Seq<char>>,
    db: Map<u32, DbcMessageView>,
    current: Option<DbcMessageView>,
) -> Result<Map<u32, DbcMessageView>, ErrorView>
    decreases lines.len(),
{
    if lines.len() == 0 {
        Ok(committed(db, current))
    } else {
        let line = text::trimmed(lines[0]);
        let rest = lines.skip(1);
        if text::has_prefix(line, "BO_ "@) {
            match message_of(line) {
                Ok(m) => database_of(rest, committed(db, current), Some(m)),
                Err(e) => Err(e),
            }
        } else if text::has_prefix(line, "SG_ "@) {
            match current {
                None => database_of(rest, db, current),
                Some(m) => match signal_of(line) {
                    Ok(s) => database_of(
                        rest,
                        db,
                        Some(DbcMessageView { signals: m.signals.push(s), ..m }),
                    ),
                    Err(e) => Err(e),
                },
            }
        } else {
            database_of(rest, committed(db, current), None)
        }
    }
}

/// The database that a file defines.
pub open spec fn file_of(input: Seq<char>) -> Result<Map<u32, DbcMessageView>, ErrorView> {
    database_of(text::lines(input), Map::empty(), None)
}

/// The mathematical value of an optional message.
spec fn opt_view(m: Option<DbcMessage>) -> Option<DbcMessageView> {
    match m {
        Some(m) => Some(m@),
        None => None,
    }
}

fn commit(db: &mut DbcDatabase, current: Option<DbcMessage>)
    ensures
        final(db)@ == committed(old(db)@, opt_view(current)),
{
    if let Some(m) = current {
        let ghost before = db.messages@;
        db.messages.insert(m.id, m);
        assert(db@ =~= message_views(before).insert(m.id, m@));
    }
}

/// Reads a DBC file.
pub fn parse(input: &str) -> (r: Result<DbcDatabase, Error>)
    ensures
        match r {
            Ok(db) => file_of(input@) == Ok::<Map<u32, DbcMessageView>, ErrorView>(db@),
            Err(e) => file_of(input@) == Err::<Map<u32, DbcMessageView>, ErrorView>(e@),
        },
{
    let chars = text::chars_of(input);
    let lines = text::split_lines(&chars);
    let ghost all = text::pieces(lines@);
    let mut db = DbcDatabase::default();
    let mut current: Option<DbcMessage> = None;
    let mut i: usize = 0;
    assert(all.skip(0) =~= all);
    while i < lines.len()
        invariant
            i <= lines@.len(),
            all == text::pieces(lines@),
            all == text::lines(input@),
            database_of(all, Map::empty(), None) == database_of(
                all.skip(i as int),
                db@,
                opt_view(current),
            ),
        decreases lines@.len() - i,
    {
        let line = text::trim(lines[i]);
        proof {
            assert(all.skip(i as int)[0] == lines@[i as int]@);
            assert(all.skip(i as int).skip(1) =~= all.skip(i + 1));
        }
        i += 1;
        if text::starts_with(line, "BO_ ") {
            commit(&mut db, current);
            match parse_message_line(line) {
                Ok(m) => {
                    current = Some(m);
                },
                Err(e) => return Err(e),
            }
        } else if text::starts_with(line, "SG_ ") {
            if let Some(mut m) = current {
                match parse_signal_line(line) {
                    Ok(s) => {
                        let ghost before = m;
                        m.signals.push(s);
                        assert(m@.signals =~= before@.signals.push(s@));
                        current = Some(m);
                    },
                    Err(e) => return Err(e),
                }
            } else {
                current = None;
            }
        } else {
            commit(&mut db, current);
            current = None;
        }
    }
    assert(all.skip(i as int).len() == 0);
    commit(&mut db, current);
    Ok(db)
}

// ---------------------------------------------------------------------------
// Decoding
// ---------------------------------------------------------------------------

/// Bit `bit` of byte `byte`; a byte beyond the end has no set bits.
pub open spec fn data_bit(data: Seq<u8>, byte: int, bit: int) -> bool {
    byte < data.len() && (data[byte] >> (bit as u8)) & 1 == 1
}

/// Bit `i` of a signal of `length` bits, bit 0 being the least significant. An Intel
/// signal goes up from its start bit. A Motorola signal has its most significant bit
/// there, and goes down through the byte and on to the top of the next byte.
pub open spec fn signal_bit(
    data: Seq<u8>,
    start_bit: int,
    length: int,
    order: ByteOrder,
    i: int,
) -> bool {
    match order {
        ByteOrder::LittleEndian => data_bit(data, (start_bit + i) / 8, (start_bit + i) % 8),
        ByteOrder::BigEndian => {
            let place = 8 * (start_bit / 8) + (7 - start_bit % 8) + (length - 1 - i);
            data_bit(data, place / 8, 7 - place % 8)
        },
    }
}

/// The number that the bits of a signal from bit `k` up write.
pub open spec fn bits_from(
    data: Seq<u8>,
    start_bit: int,
    length: int,
    order: ByteOrder,
    k: int,
) -> nat
    decreases length - k,
{
    if k >= length {
        0
    } else {
        2 * bits_from(data, start_bit, length, order, k + 1) + (if signal_bit(
            data,
            start_bit,
            length,
            order,
            k,
        ) {
            1nat
        } else {
            0nat
        })
    }
}

/// The raw value of a signal: the number that its bits write.
pub open spec fn raw_value(data: Seq<u8>, start_bit: int, length: int, order: ByteOrder) -> nat {
    bits_from(data, start_bit, length, order, 0)
}

/// Whether no bit of a signal above bit 63 is set, so that its raw value fits 64 bits.
pub open spec fn fits_64_bits(
    data: Seq<u8>,
    start_bit: int,
    length: int,
    order: ByteOrder,
) -> bool {
    forall|i: int| 64 <= i < length ==> !#[trigger] signal_bit(data, start_bit, length, order, i)
}

proof fn lemma_bits_bound(data: Seq<u8>, start_bit: int, length: int, order: ByteOrder, k: int)
    requires
        0 <= k <= length,
        fits_64_bits(data, start_bit, length, order),
    ensures
        k >= 64 ==> bits_from(data, start_bit, length, order, k) == 0,
        k <= 64 ==> bits_from(data, start_bit, length, order, k) < pow2((64 - k) as nat),
        bits_from(data, start_bit, length, order, k) < pow2((length - k) as nat),
    decreases length - k,
{
    vstd::arithmetic::power2::lemma2_to64();
    if k < length {
        lemma_bits_bound(data, start_bit, length, order, k + 1);
        vstd::arithmetic::power2::lemma_pow2_unfold((length - k) as nat);
        if k < 64 {
            vstd::arithmetic::power2::lemma_pow2_unfold((64 - k) as nat);
        } else {
            assert(!signal_bit(data, start_bit, length, order, k));
        }
    } else if k <= 64 {
        vstd::arithmetic::power2::lemma_pow2_pos((64 - k) as nat);
    }
}

fn bit_at(data: &[u8], start_bit: usize, length: usize, order: ByteOrder, i: usize) -> (r: bool)
    requires
        i < length,
        order == ByteOrder::LittleEndian ==> start_bit + length <= usize::MAX,
        order == ByteOrder::BigEndian ==> length + 7 <= usize::MAX,
    ensures
        r == signal_bit(data@, start_bit as int, length as int, order, i as int),
{
    let byte: usize;
    let bit: u8;
    match order {
        ByteOrder::LittleEndian => {
            byte = (start_bit + i) / 8;
            bit = ((start_bit + i) % 8) as u8;
        },
        ByteOrder::BigEndian => {
            let down: usize = (7 - start_bit % 8) + (length - 1 - i);
            byte = start_bit / 8 + down / 8;
            bit = (7 - down % 8) as u8;
        },
    }
    byte < data.len() && (data[byte] >> bit) & 1 == 1
}

/// Reads the raw value of a signal of `length` bits at `start_bit`.
pub fn extract_raw(data: &[u8], start_bit: usize, length: usize, order: ByteOrder) -> (r: u64)
    requires
        fits_64_bits(data@, start_bit as int, length as int, order),
        order == ByteOrder::LittleEndian ==> start_bit + length <= usize::MAX,
        order == ByteOrder::BigEndian ==> length + 7 <= usize::MAX,
    ensures
        r == raw_value(data@, start_bit as int, length as int, order),
        r < pow2(length as nat),
{
    let mut raw: u64 = 0;
    let mut k: usize = length;
    while k > 0
        invariant
            k <= length,
            raw == bits_from(data@, start_bit as int, length as int, order, k as int),
            fits_64_bits(data@, start_bit as int, length as int, order),
            order == ByteOrder::LittleEndian ==> start_bit + length <= usize::MAX,
            order == ByteOrder::BigEndian ==> length + 7 <= usize::MAX,
        decreases k,
    {
        k -= 1;
        let set = bit_at(data, start_bit, length, order, k);
        proof {
            lemma_bits_bound(data@, start_bit as int, length as int, order, k as int);
            vstd::arithmetic::power2::lemma2_to64();
            vstd::arithmetic::power2::lemma2_to64_rest();
            if 0 < k < 64 {
                vstd::arithmetic::power2::lemma_pow2_strictly_increases((64 - k) as nat, 64);
            }
        }
        raw = 2 * raw + (if set { 1 } else { 0 });
    }
    proof {
        lemma_bits_bound(data@, start_bit as int, length as int, order, 0);
    }
    raw
}

/// The number that the lowest `length` bits of `raw` write in two's complement.
pub open spec fn twos_complement(raw: nat, length: nat) -> int {
    if raw >= pow2((length - 1) as nat) { raw - pow2(length) } else { raw as int }
}

/// Two to the power `n`.
pub open spec fn pow2(n: nat) -> nat {
    vstd::arithmetic::power2::pow2(n)
}

/// Whether a signal can be read from a frame: its raw value fits 64 bits, and a signed one
/// has 1 to 64 bits.
pub open spec fn readable(sig: DbcSignalView, data: Seq<u8>) -> bool {
    &&& fits_64_bits(data, sig.start_bit as int, sig.length as int, sig.byte_order)
    &&& sig.value_type == ValueType::Signed ==> 1 <= sig.length <= 64
}

/// The integer that a signal holds, before scaling.
pub open spec fn signal_value(sig: DbcSignalView, data: Seq<u8>) -> int {
    let raw = raw_value(data, sig.start_bit as int, sig.length as int, sig.byte_order);
    match sig.value_type {
        ValueType::Unsigned => raw as int,
        ValueType::Signed => twos_complement(raw, sig.length as nat),
    }
}

/// Whether `sig` can be read from `data`.
pub fn is_readable(sig: &DbcSignal, data: &[u8]) -> (r: bool)
    ensures
        r == readable(sig@, data@),
{
    let start: usize = sig.start_bit as usize;
    let length: usize = sig.length as usize;
    let mut i: usize = 64;
    while i < length
        invariant
            64 <= i,
            start == sig.start_bit,
            length == sig.length,
            forall|j: int|
                64 <= j < i && j < length ==> !#[trigger] signal_bit(
                    data@,
                    start as int,
                    length as int,
                    sig.byte_order,
                    j,
                ),
        decreases length - i,
    {
        if bit_at(data, start, length, sig.byte_order, i) {
            assert(signal_bit(data@, start as int, length as int, sig.byte_order, i as int));
            return false;
        }
        i += 1;
    }
    match sig.value_type {
        ValueType::Unsigned => true,
        ValueType::Signed => 1 <= length && length <= 64,
    }
}

/// Reads the integer that a signal holds. The physical value is this integer times the
/// signal's factor plus its offset.
pub fn decode_signal(sig: &DbcSignal, data: &[u8]) -> (r: i128)
    requires
        readable(sig@, data@),
    ensures
        r == signal_value(sig@, data@),
{
    let raw: u64 = extract_raw(
        data,
        sig.start_bit as usize,
        sig.length as usize,
        sig.byte_order,
    );
    match sig.value_type {
        ValueType::Unsigned => raw as i128,
        ValueType::Signed => {
            let mut half: i128 = 1;
            let mut k: u8 = 1;
            proof {
                vstd::arithmetic::power2::lemma2_to64();
                vstd::arithmetic::power2::lemma2_to64_rest();
            }
            while k < sig.length
                invariant
                    1 <= k <= sig.length <= 64,
                    half == pow2((k - 1) as nat),
                    1 <= half <= 0x8000_0000_0000_0000,
                decreases sig.length - k,
            {
                proof {
                    vstd::arithmetic::power2::lemma2_to64();
                    vstd::arithmetic::power2::lemma2_to64_rest();
                    vstd::arithmetic::power2::lemma_pow2_unfold(k as nat);
                    if k < 63 {
                        vstd::arithmetic::power2::lemma_pow2_strictly_increases(k as nat, 63);
                    }
                }
                half = 2 * half;
                k += 1;
            }
            proof {
                vstd::arithmetic::power2::lemma_pow2_unfold(sig.length as nat);
            }
            if raw as i128 >= half {
                raw as i128 - 2 * half
            } else {
                raw as i128
            }
        },
    }
}

/// A signal as it was read from a frame: the integer that it holds, and the literals of
/// the factor and the offset that turn it into a physical value.
#[derive(Debug, Clone)]
pub struct SignalValue {
    pub value: i128,
    pub factor: String,
    pub offset: String,
}

/// The mathematical value of a [`SignalValue`].
pub struct SignalValueView {
    pub value: int,
    pub factor: Seq<char>,
    pub offset: Seq<char>,
}

impl View for SignalValue {
    type V = SignalValueView;

    open spec fn view(&self) -> SignalValueView {
        SignalValueView {
            value: self.value as int,
            factor: self.factor@,
            offset: self.offset@,
        }
    }
}

/// The values of a list of signals, by name. Of two signals with one name the later counts.
pub open spec fn decoded(signals: Seq<DbcSignalView>, data: Seq<u8>) -> Map<
    Seq<char>,
    SignalValueView,
>
    decreases signals.len(),
{
    if signals.len() == 0 {
        Map::empty()
    } else {
        let s = signals.last();
        decoded(signals.drop_last(), data).insert(
            s.name,
            SignalValueView {
                value: signal_value(s, data),
                factor: s.factor,
                offset: s.offset,
            },
        )
    }
}

impl DbcDatabase {
    /// Whether every signal of message `id` can be read from `data`.
    pub open spec fn all_readable(&self, id: u32, data: Seq<u8>) -> bool {
        self@.dom().contains(id) ==> forall|i: int|
            0 <= i < self@[id].signals.len() ==> readable(#[trigger] self@[id].signals[i], data)
    }

    /// Whether every signal of message `id` can be read from `data`.
    pub fn can_decode(&self, id: u32, data: &[u8]) -> (r: bool)
        ensures
            r == self.all_readable(id, data@),
    {
        let msg = match self.messages.get(&id) {
            Some(m) => m,
            None => return true,
        };
        assert(self@[id] == msg@);
        let mut i: usize = 0;
        while i < msg.signals.len()
            invariant
                i <= msg.signals@.len(),
                self@.dom().contains(id),
                self@[id] == msg@,
                forall|j: int| 0 <= j < i ==> readable(#[trigger] self@[id].signals[j], data@),
            decreases msg.signals@.len() - i,
        {
            assert(self@[id].signals[i as int] == msg.signals@[i as int]@);
            if !is_readable(&msg.signals[i], data) {
                return false;
            }
            i += 1;
        }
        true
    }

    /// Reads all signals of message `id` from the data of a frame. There are none where
    /// the message is not known.
    pub fn decode(&self, id: u32, data: &[u8]) -> (r: TextMap<SignalValue>)
        requires
            self.all_readable(id, data@),
        ensures
            r.wf(),
            r@ == (if self@.dom().contains(id) {
                decoded(self@[id].signals, data@)
            } else {
                Map::empty()
            }),
    {
        let mut result: TextMap<SignalValue> = TextMap::new();
        let msg = match self.messages.get(&id) {
            Some(m) => m,
            None => return result,
        };
        let ghost views = msg@.signals;
        assert(self@[id] == msg@);
        let mut i: usize = 0;
        assert(views.take(0) =~= Seq::empty());
        while i < msg.signals.len()
            invariant
                i <= msg.signals@.len(),
                views == msg@.signals,
                result.wf(),
                result@ == decoded(views.take(i as int), data@),
                forall|j: int| 0 <= j < views.len() ==> readable(#[trigger] views[j], data@),
            decreases msg.signals@.len() - i,
        {
            let sig = &msg.signals[i];
            assert(views[i as int] == sig@);
            let value: i128 = decode_signal(sig, data);
            result.insert(
                sig.name.clone(),
                SignalValue { value, factor: sig.factor.clone(), offset: sig.offset.clone() },
            );
            assert(views.take(i + 1).drop_last() =~= views.take(i as int));
            i += 1;
        }
        assert(views.take(i as int) =~= views);
        result
    }
}

/// The bits of a byte from bit `k` up write what is left of it without those below.
proof fn lemma_byte_bits(data: Seq<u8>, byte: int, start_bit: int, order: ByteOrder, k: int)
    requires
        0 <= byte < data.len(),
        0 <= k <= 8,
        forall|i: int|
            0 <= i < 8 ==> #[trigger] signal_bit(data, start_bit, 8, order, i) == data_bit(
                data,
                byte,
                i,
            ),
    ensures
        bits_from(data, start_bit, 8, order, k) == (data[byte] as u16 >> (k as u16)),
    decreases 8 - k,
{
    let b = data[byte];
    if k == 8 {
        assert(b as u16 >> 8u16 == 0) by (bit_vector);
    } else {
        lemma_byte_bits(data, byte, start_bit, order, k + 1);
        let n = k as u8;
        let m = k as u16;
        assert(b as u16 >> m == 2 * (b as u16 >> ((m + 1) as u16)) + (if (b >> n) & 1 == 1 {
            1u16
        } else {
            0u16
        })) by (bit_vector)
            requires
                n < 8,
                m == n as u16,
        ;
        assert(signal_bit(data, start_bit, 8, order, k) == data_bit(data, byte, k));
    }
}

/// An unsigned signal that is one whole byte of the frame has the value of that byte, in
/// either bit order.
pub proof fn whole_byte_signal(data: Seq<u8>, byte: int)
    requires
        0 <= byte < data.len(),
    ensures
        raw_value(data, 8 * byte, 8, ByteOrder::LittleEndian) == data[byte],
        raw_value(data, 8 * byte + 7, 8, ByteOrder::BigEndian) == data[byte],
{
    let b = data[byte];
    assert(b as u16 >> 0u16 == b) by (bit_vector);
    assert forall|i: int| 0 <= i < 8 implies #[trigger] signal_bit(
        data,
        8 * byte,
        8,
        ByteOrder::LittleEndian,
        i,
    ) == data_bit(data, byte, i) by {
        assert((8 * byte + i) / 8 == byte && (8 * byte + i) % 8 == i);
    }
    assert forall|i: int| 0 <= i < 8 implies #[trigger] signal_bit(
        data,
        8 * byte + 7,
        8,
        ByteOrder::BigEndian,
        i,
    ) == data_bit(data, byte, i) by {
        assert((8 * byte + 7) / 8 == byte && (8 * byte + 7) % 8 == 7);
        let place = 8 * byte + (7 - i);
        assert(place / 8 == byte && place % 8 == 7 - i);
    }
    lemma_byte_bits(data, byte, 8 * byte, ByteOrder::LittleEndian, 0);
    lemma_byte_bits(data, byte, 8 * byte + 7, ByteOrder::BigEndian, 0);
}

/// What was read before a file stays, but for the messages that the file replaces.
proof fn lemma_read_before(
    lines: Seq<Seq<char>>,
    before: Map<u32, DbcMessageView>,
    db: Map<u32, DbcMessageView>,
    current: Option<DbcMessageView>,
)
    ensures
        database_of(lines, before.union_prefer_right(db), current) == (match database_of(
            lines,
            db,
            current,
        ) {
            Ok(d) => Ok(before.union_prefer_right(d)),
            Err(e) => Err(e),
        }),
    decreases lines.len(),
{
    let both = before.union_prefer_right(db);
    assert(committed(both, current) =~= before.union_prefer_right(committed(db, current)));
    if lines.len() > 0 {
        let line = text::trimmed(lines[0]);
        let rest = lines.skip(1);
        lemma_read_before(rest, before, committed(db, current), None);
        if text::has_prefix(line, "BO_ "@) {
            if let Ok(m) = message_of(line) {
                lemma_read_before(rest, before, committed(db, current), Some(m));
            }
        } else if text::has_prefix(line, "SG_ "@) {
            lemma_read_before(rest, before, db, current);
            if let Some(m) = current {
                if let Ok(sig) = signal_of(line) {
                    let more = DbcMessageView { signals: m.signals.push(sig), ..m };
                    lemma_read_before(rest, before, db, Some(more));
                }
            }
        }
    }
}

/// A line that begins neither a message nor a signal, such as a blank one or a comment, ends
/// what is in front of it: the lines behind it are read as if they stood alone.
pub proof fn other_lines_end_a_message(
    front: Seq<Seq<char>>,
    other: Seq<char>,
    back: Seq<Seq<char>>,
    db: Map<u32, DbcMessageView>,
    current: Option<DbcMessageView>,
)
    requires
        !"BO_ "@.is_prefix_of(text::trimmed(other)),
        !"SG_ "@.is_prefix_of(text::trimmed(other)),
    ensures
        database_of(front.push(other) + back, db, current) == (match database_of(
            front,
            db,
            current,
        ) {
            Ok(d) => database_of(back, d, None),
            Err(e) => Err(e),
        }),
    decreases front.len(),
{
    let all = front.push(other) + back;
    if front.len() == 0 {
        let line = text::trimmed(all[0]);
        assert(all[0] == other);
        assert(all.skip(1) =~= back);
        lemma_prefixes(line, "BO_ "@);
        lemma_prefixes(line, "SG_ "@);
    } else {
        let line = text::trimmed(front[0]);
        let rest = front.skip(1);
        assert(all[0] == front[0]);
        assert(all.skip(1) =~= rest.push(other) + back);
        other_lines_end_a_message(rest, other, back, committed(db, current), None);
        if text::has_prefix(line, "BO_ "@) {
            if let Ok(m) = message_of(line) {
                other_lines_end_a_message(rest, other, back, committed(db, current), Some(m));
            }
        } else if text::has_prefix(line, "SG_ "@) {
            other_lines_end_a_message(rest, other, back, db, current);
            if let Some(m) = current {
                if let Ok(sig) = signal_of(line) {
                    let more = DbcMessageView { signals: m.signals.push(sig), ..m };
                    other_lines_end_a_message(rest, other, back, db, Some(more));
                }
            }
        }
    }
}

proof fn lemma_prefixes(s: Seq<char>, prefix: Seq<char>)
    ensures
        text::has_prefix(s, prefix) <==> prefix.is_prefix_of(s),
{
    if prefix.len() <= s.len() {
        if prefix.is_prefix_of(s) {
            assert(s.take(prefix.len() as int) =~= prefix);
        }
    }
}

/// A blank line ends what is in front of it.
proof fn lemma_blank_line(
    front: Seq<Seq<char>>,
    back: Seq<Seq<char>>,
    db: Map<u32, DbcMessageView>,
    current: Option<DbcMessageView>,
)
    ensures
        database_of(front.push(Seq::empty()) + back, db, current) == (match database_of(
            front,
            db,
            current,
        ) {
            Ok(d) => database_of(back, d, None),
            Err(e) => Err(e),
        }),
{
    let blank = Seq::<char>::empty();
    reveal_strlit("BO_ ");
    reveal_strlit("SG_ ");
    assert(text::trimmed(blank).len() == 0);
    other_lines_end_a_message(front, blank, back, db, current);
}

/// A message line ends the message in front of it: it and what follows are read as if they
/// stood alone.
pub proof fn message_lines_end_a_message(
    front: Seq<Seq<char>>,
    back: Seq<Seq<char>>,
    db: Map<u32, DbcMessageView>,
    current: Option<DbcMessageView>,
)
    requires
        back.len() > 0,
        "BO_ "@.is_prefix_of(text::trimmed(back[0])),
    ensures
        database_of(front + back, db, current) == (match database_of(front, db, current) {
            Ok(d) => database_of(back, d, None),
            Err(e) => Err(e),
        }),
    decreases front.len(),
{
    let all = front + back;
    if front.len() == 0 {
        assert(all =~= back);
        lemma_prefixes(text::trimmed(back[0]), "BO_ "@);
    } else {
        let line = text::trimmed(front[0]);
        let rest = front.skip(1);
        assert(all[0] == front[0]);
        assert(all.skip(1) =~= rest + back);
        message_lines_end_a_message(rest, back, committed(db, current), None);
        if text::has_prefix(line, "BO_ "@) {
            if let Ok(m) = message_of(line) {
                message_lines_end_a_message(rest, back, committed(db, current), Some(m));
            }
        } else if text::has_prefix(line, "SG_ "@) {
            message_lines_end_a_message(rest, back, db, current);
            if let Some(m) = current {
                if let Ok(sig) = signal_of(line) {
                    let more = DbcMessageView { signals: m.signals.push(sig), ..m };
                    message_lines_end_a_message(rest, back, db, Some(more));
                }
            }
        }
    }
}

/// Signal lines in front of the first message of a file, or behind a line that ended one, are
/// passed over, even where they are malformed.
pub proof fn signals_outside_messages_do_not_count(
    line: Seq<char>,
    back: Seq<Seq<char>>,
    db: Map<u32, DbcMessageView>,
)
    requires
        "SG_ "@.is_prefix_of(text::trimmed(line)),
    ensures
        database_of(seq![line] + back, db, None) == database_of(back, db, None),
{
    let all = seq![line] + back;
    let t = text::trimmed(line);
    reveal_strlit("BO_ ");
    reveal_strlit("SG_ ");
    assert(all[0] == line);
    assert(all.skip(1) =~= back);
    lemma_prefixes(t, "SG_ "@);
    assert(t[0] == "SG_ "@[0]);
    lemma_prefixes(t, "BO_ "@);
    assert("BO_ "@[0] == 'B');
}

/// A malformed message line anywhere, and a malformed signal line inside a message, make the
/// whole file an error, whatever follows.
pub proof fn malformed_lines_are_errors(
    line: Seq<char>,
    back: Seq<Seq<char>>,
    db: Map<u32, DbcMessageView>,
    current: DbcMessageView,
)
    ensures
        "BO_ "@.is_prefix_of(text::trimmed(line)) && message_of(text::trimmed(line)) is Err ==> (
        database_of(seq![line] + back, db, None) is Err && database_of(
            seq![line] + back,
            db,
            Some(current),
        ) is Err),
        "SG_ "@.is_prefix_of(text::trimmed(line)) && signal_of(text::trimmed(line)) is Err
            ==> database_of(seq![line] + back, db, Some(current)) is Err,
{
    let all = seq![line] + back;
    let t = text::trimmed(line);
    reveal_strlit("BO_ ");
    reveal_strlit("SG_ ");
    assert(all[0] == line);
    lemma_prefixes(t, "SG_ "@);
    lemma_prefixes(t, "BO_ "@);
    assert("BO_ "@[0] == 'B' && "SG_ "@[0] == 'S');
}

/// Two files with a blank line between them are read as each is read alone. Where both are
/// sound, the messages are those of both, and a message of the second takes the place of
/// one of the first with its identifier. Else the error is that of the first file that has
/// one.
pub proof fn files_put_together(a: Seq<char>, b: Seq<char>)
    ensures
        file_of(a + "\n\n"@ + b) == (match (file_of(a), file_of(b)) {
            (Ok(x), Ok(y)) => Ok(x.union_prefer_right(y)),
            (Err(e), _) => Err(e),
            (Ok(_), Err(e)) => Err(e),
        }),
{
    reveal_strlit("\n\n");
    let nl = seq!['\n'];
    let ended = a + nl;
    let none: Option<DbcMessageView> = None;
    let empty = Map::<u32, DbcMessageView>::empty();
    assert(a + "\n\n"@ + b =~= ended + nl + b);
    text::lines_of_joined_text(ended, b);
    text::lines_of_ended_text(ended);
    assert(ended.last() == '\n');
    text::lines_of_ended_text(a);
    let back = text::lines(b);
    lemma_blank_line(text::lines(ended), back, empty, none);
    if a.len() == 0 || a.last() == '\n' {
        lemma_blank_line(text::lines(a), Seq::empty(), empty, none);
        assert(text::lines(a).push(Seq::empty()) + Seq::empty() =~= text::lines(ended));
        if let Ok(x) = file_of(a) {
            assert(database_of(Seq::empty(), x, none) == Ok::<
                Map<u32, DbcMessageView>,
                ErrorView,
            >(x));
        }
    }
    assert(database_of(text::lines(ended), empty, none) == file_of(a));
    if let Ok(x) = file_of(a) {
        lemma_read_before(back, x, empty, none);
        assert(x.union_prefer_right(empty) =~= x);
    }
}

/// The number that bytes write, the first byte being the least significant.
pub open spec fn little_endian(data: Seq<u8>) -> nat
    decreases data.len(),
{
    if data.len() == 0 { 0 } else { data[0] as nat + 256 * little_endian(data.skip(1)) }
}

/// The number that bytes write, the last byte being the least significant.
pub open spec fn big_endian(data: Seq<u8>) -> nat
    decreases data.len(),
{
    if data.len() == 0 { 0 } else { 256 * big_endian(data.drop_last()) + data.last() as nat }
}

/// The bits of a byte, by division.
proof fn lemma_bits_by_division(d: u8)
    ensures
        (d >> 0u8) & 1 == d % 2,
        (d >> 1u8) & 1 == d / 2 % 2,
        (d >> 2u8) & 1 == d / 4 % 2,
        (d >> 3u8) & 1 == d / 8 % 2,
        (d >> 4u8) & 1 == d / 16 % 2,
        (d >> 5u8) & 1 == d / 32 % 2,
        (d >> 6u8) & 1 == d / 64 % 2,
        (d >> 7u8) & 1 == d / 128 % 2,
{
    assert((d >> 0u8) & 1 == d % 2 && (d >> 1u8) & 1 == d / 2 % 2 && (d >> 2u8) & 1 == d / 4 % 2
        && (d >> 3u8) & 1 == d / 8 % 2 && (d >> 4u8) & 1 == d / 16 % 2 && (d >> 5u8) & 1 == d / 32
        % 2 && (d >> 6u8) & 1 == d / 64 % 2 && (d >> 7u8) & 1 == d / 128 % 2) by (bit_vector);
}

/// The low bits of a number are those of its lowest byte: here the bit with weight `w`.
proof fn lemma_low_bit(d: int, m: int, w: int, h: int)
    requires
        0 <= d,
        0 <= m,
        0 < w,
        w * h == 128,
    ensures
        (d + 256 * m) / w % 2 == d / w % 2,
{
    let j = 2 * (h * m);
    assert(j * w == 256 * m) by (nonlinear_arith)
        requires
            j == 2 * (h * m),
            w * h == 128,
    ;
    vstd::arithmetic::div_mod::lemma_hoist_over_denominator(d, j, w as nat);
    assert((d / w + 2 * (h * m)) % 2 == d / w % 2);
}

/// The bits of a number whose lowest byte is `d`.
proof fn lemma_low_byte(d: u8, m: nat, p: nat)
    ensures
        p < 8 ==> ((d as nat + 256 * m) / pow2(p)) % 2 == (if (d >> (p as u8)) & 1 == 1 {
            1nat
        } else {
            0nat
        }),
        p >= 8 ==> (d as nat + 256 * m) / pow2(p) == m / pow2((p - 8) as nat),
{
    let x = d as nat + 256 * m;
    if p < 8 {
        assert(pow2(0) == 1 && pow2(1) == 2 && pow2(2) == 4 && pow2(3) == 8 && pow2(4) == 16
            && pow2(5) == 32 && pow2(6) == 64 && pow2(7) == 128) by {
            vstd::arithmetic::power2::lemma2_to64();
        }
        lemma_bits_by_division(d);
        let c = d as int;
        let k = m as int;
        if p == 0 {
            lemma_low_bit(c, k, 1, 128);
        } else if p == 1 {
            lemma_low_bit(c, k, 2, 64);
        } else if p == 2 {
            lemma_low_bit(c, k, 4, 32);
        } else if p == 3 {
            lemma_low_bit(c, k, 8, 16);
        } else if p == 4 {
            lemma_low_bit(c, k, 16, 8);
        } else if p == 5 {
            lemma_low_bit(c, k, 32, 4);
        } else if p == 6 {
            lemma_low_bit(c, k, 64, 2);
        } else {
            lemma_low_bit(c, k, 128, 1);
        }
    } else {
        let q = (p - 8) as nat;
        assert(pow2(8) == 256) by {
            vstd::arithmetic::power2::lemma2_to64();
        }
        vstd::arithmetic::power2::lemma_pow2_adds(8, q);
        vstd::arithmetic::power2::lemma_pow2_pos(q);
        vstd::arithmetic::div_mod::lemma_div_denominator(x as int, 256, pow2(q) as int);
        assert(x / 256 == m);
    }
}

proof fn lemma_little_endian_bit(data: Seq<u8>, p: nat)
    ensures
        (little_endian(data) / pow2(p)) % 2 == (if data_bit(
            data,
            p as int / 8,
            p as int % 8,
        ) {
            1nat
        } else {
            0nat
        }),
    decreases data.len(),
{
    if data.len() == 0 {
        vstd::arithmetic::power2::lemma_pow2_pos(p);
        vstd::arithmetic::div_mod::lemma_div_of0(pow2(p) as int);
    } else {
        lemma_low_byte(data[0], little_endian(data.skip(1)), p);
        if p >= 8 {
            lemma_little_endian_bit(data.skip(1), (p - 8) as nat);
            let byte = p as int / 8;
            assert((p - 8) / 8 == byte - 1 && (p - 8) % 8 == p as int % 8);
            if byte < data.len() {
                assert(data.skip(1)[byte - 1] == data[byte]);
            }
        }
    }
}

proof fn lemma_big_endian_bit(data: Seq<u8>, place: int)
    requires
        0 <= place < 8 * data.len(),
    ensures
        (big_endian(data) / pow2((8 * data.len() - 1 - place) as nat)) % 2 == (if data_bit(
            data,
            place / 8,
            7 - place % 8,
        ) {
            1nat
        } else {
            0nat
        }),
    decreases data.len(),
{
    let q = (8 * data.len() - 1 - place) as nat;
    let front = data.drop_last();
    lemma_low_byte(data.last(), big_endian(front), q);
    if q >= 8 {
        lemma_big_endian_bit(front, place);
        assert(place / 8 < front.len());
        assert(front[place / 8] == data[place / 8]);
    } else {
        assert(place / 8 == data.len() - 1 && 7 - place % 8 == q);
    }
}

/// A signal whose bits are those of a number from bit `base` up has the value of those bits.
proof fn lemma_bits_of_number(
    data: Seq<u8>,
    start_bit: int,
    length: int,
    order: ByteOrder,
    n: nat,
    base: nat,
    k: int,
)
    requires
        0 <= k <= length,
        forall|i: int|
            0 <= i < length ==> (#[trigger] signal_bit(data, start_bit, length, order, i) <==> (n
                / pow2((base + i) as nat)) % 2 == 1),
    ensures
        bits_from(data, start_bit, length, order, k) == (n / pow2((base + k) as nat)) % pow2(
            (length - k) as nat,
        ),
    decreases length - k,
{
    let x = n / pow2((base + k) as nat);
    vstd::arithmetic::power2::lemma2_to64();
    vstd::arithmetic::power2::lemma_pow2_pos((base + k) as nat);
    if k < length {
        lemma_bits_of_number(data, start_bit, length, order, n, base, k + 1);
        vstd::arithmetic::power2::lemma_pow2_unfold((length - k) as nat);
        vstd::arithmetic::power2::lemma_pow2_unfold((base + k + 1) as nat);
        vstd::arithmetic::power2::lemma_pow2_pos((length - k - 1) as nat);
        vstd::arithmetic::div_mod::lemma_div_denominator(
            n as int,
            pow2((base + k) as nat) as int,
            2,
        );
        assert(pow2((base + k) as nat) * 2 == 2 * pow2((base + k) as nat));
        assert(x / 2 == n / pow2((base + k + 1) as nat));
        vstd::arithmetic::div_mod::lemma_mod_breakdown(
            x as int,
            2,
            pow2((length - k - 1) as nat) as int,
        );
        assert(signal_bit(data, start_bit, length, order, k) <==> x % 2 == 1);
    } else {
        assert(x % 1 == 0);
    }
}

/// The raw value of an Intel signal is what is left of the number that all bytes of the
/// frame write, the first being the least significant, when as many bits as lie in front
/// of the signal are cut off at the low end and only the signal's bits are kept. Bytes that
/// are missing count as zeros.
pub proof fn intel_signal_is_cut_from_the_frame(data: Seq<u8>, start_bit: nat, length: nat)
    ensures
        raw_value(data, start_bit as int, length as int, ByteOrder::LittleEndian) == (
        little_endian(data) / vstd::arithmetic::power2::pow2(start_bit))
            % vstd::arithmetic::power2::pow2(length),
{
    let n = little_endian(data);
    assert forall|i: int| 0 <= i < length implies (#[trigger] signal_bit(
        data,
        start_bit as int,
        length as int,
        ByteOrder::LittleEndian,
        i,
    ) <==> (n / pow2((start_bit + i) as nat)) % 2 == 1) by {
        lemma_little_endian_bit(data, (start_bit + i) as nat);
    }
    lemma_bits_of_number(
        data,
        start_bit as int,
        length as int,
        ByteOrder::LittleEndian,
        n,
        start_bit,
        0,
    );
}

/// The raw value of a Motorola signal is what is left of the number that all bytes of the
/// frame write, the last being the least significant, when only the signal's bits are kept:
/// `front` bits lie in front of the signal, counted from the highest bit of the first byte,
/// and as many behind it as are left.
pub proof fn motorola_signal_is_cut_from_the_frame(
    data: Seq<u8>,
    start_bit: nat,
    length: nat,
    front: nat,
)
    requires
        front / 8 == start_bit / 8,
        front % 8 + start_bit % 8 == 7,
        front + length <= 8 * data.len(),
    ensures
        raw_value(data, start_bit as int, length as int, ByteOrder::BigEndian) == (big_endian(data)
            / vstd::arithmetic::power2::pow2((8 * data.len() - front - length) as nat))
            % vstd::arithmetic::power2::pow2(length),
{
    let n = big_endian(data);
    let base = (8 * data.len() - front - length) as nat;
    assert forall|i: int| 0 <= i < length implies (#[trigger] signal_bit(
        data,
        start_bit as int,
        length as int,
        ByteOrder::BigEndian,
        i,
    ) <==> (n / pow2((base + i) as nat)) % 2 == 1) by {
        let place = front + (length - 1 - i);
        assert(place == 8 * (start_bit as int / 8) + (7 - start_bit as int % 8) + (length - 1 - i));
        lemma_big_endian_bit(data, place);
        assert(8 * data.len() - 1 - place == base + i);
    }
    lemma_bits_of_number(
        data,
        start_bit as int,
        length as int,
        ByteOrder::BigEndian,
        n,
        base,
        0,
    );
}

proof fn lemma_same_bits(
    a: Seq<u8>,
    b: Seq<u8>,
    start_bit: int,
    length: int,
    order: ByteOrder,
    k: int,
)
    requires
        0 <= k <= length,
        forall|i: int|
            0 <= i < length ==> #[trigger] signal_bit(a, start_bit, length, order, i)
                == signal_bit(b, start_bit, length, order, i),
    ensures
        bits_from(a, start_bit, length, order, k) == bits_from(b, start_bit, length, order, k),
    decreases length - k,
{
    if k < length {
        lemma_same_bits(a, b, start_bit, length, order, k + 1);
        assert(signal_bit(a, start_bit, length, order, k) == signal_bit(
            b,
            start_bit,
            length,
            order,
            k,
        ));
    }
}

/// A frame that is too short for a signal reads as one with zero bytes behind it, in either
/// bit order.
pub proof fn missing_bytes_read_as_zeros(
    data: Seq<u8>,
    missing: nat,
    start_bit: nat,
    length: nat,
    order: ByteOrder,
)
    ensures
        raw_value(data, start_bit as int, length as int, order) == raw_value(
            data + Seq::new(missing, |i: int| 0u8),
            start_bit as int,
            length as int,
            order,
        ),
{
    let long = data + Seq::new(missing, |i: int| 0u8);
    assert forall|i: int| 0 <= i < length implies #[trigger] signal_bit(
        data,
        start_bit as int,
        length as int,
        order,
        i,
    ) == signal_bit(long, start_bit as int, length as int, order, i) by {
        let (byte, bit) = match order {
            ByteOrder::LittleEndian => ((start_bit + i) / 8, (start_bit + i) % 8),
            ByteOrder::BigEndian => {
                let place = 8 * (start_bit as int / 8) + (7 - start_bit as int % 8) + (length - 1
                    - i);
                (place / 8, 7 - place % 8)
            },
        };
        assert(signal_bit(data, start_bit as int, length as int, order, i) == data_bit(
            data,
            byte,
            bit,
        ));
        if 0 <= byte < data.len() {
            assert(long[byte] == data[byte]);
        } else if byte < long.len() {
            let b = bit as u8;
            assert((0u8 >> b) & 1 == 0) by (bit_vector);
        }
    }
    lemma_same_bits(data, long, start_bit as int, length as int, order, 0);
}

proof fn lemma_raw_below(data: Seq<u8>, start_bit: int, length: int, order: ByteOrder, k: int)
    requires
        0 <= k <= length,
    ensures
        bits_from(data, start_bit, length, order, k) < pow2((length - k) as nat),
    decreases length - k,
{
    vstd::arithmetic::power2::lemma_pow2_pos((length - k) as nat);
    if k < length {
        lemma_raw_below(data, start_bit, length, order, k + 1);
        vstd::arithmetic::power2::lemma_pow2_unfold((length - k) as nat);
    }
}

/// A signal of 1 to 64 bits can be read from any frame. An unsigned one has its raw value. A
/// signed one agrees with its raw value but for a multiple of two to the power of its
/// length, and lies in the range that so many bits have for numbers with a sign.
pub proof fn signs_of_signals(sig: DbcSignalView, data: Seq<u8>)
    requires
        1 <= sig.length <= 64,
    ensures
        readable(sig, data),
        ({
            let raw = raw_value(data, sig.start_bit as int, sig.length as int, sig.byte_order);
            let v = signal_value(sig, data);
            let half = vstd::arithmetic::power2::pow2((sig.length - 1) as nat);
            &&& 0 <= raw < 2 * half
            &&& sig.value_type == ValueType::Unsigned ==> v == raw
            &&& sig.value_type == ValueType::Signed ==> -half <= v < half && (v == raw || v == raw
                - 2 * half)
        }),
{
    lemma_raw_below(data, sig.start_bit as int, sig.length as int, sig.byte_order, 0);
    vstd::arithmetic::power2::lemma_pow2_unfold(sig.length as nat);
}

/// Every signal of a message is among the decoded values under its name, with its integer
/// and its scale, unless a later signal has the same name; and nothing else is.
pub proof fn every_signal_is_decoded(signals: Seq<DbcSignalView>, data: Seq<u8>, i: int)
    requires
        0 <= i < signals.len(),
    ensures
        decoded(signals, data).dom().contains(signals[i].name),
        (forall|j: int| i < j < signals.len() ==> (#[trigger] signals[j]).name != signals[i].name)
            ==> decoded(signals, data)[signals[i].name] == (SignalValueView {
            value: signal_value(signals[i], data),
            factor: signals[i].factor,
            offset: signals[i].offset,
        }),
        forall|name: Seq<char>| #[trigger]
            decoded(signals, data).dom().contains(name) ==> exists|j: int|
                0 <= j < signals.len() && (#[trigger] signals[j]).name == name,
    decreases signals.len(),
{
    let front = signals.drop_last();
    if i < front.len() {
        every_signal_is_decoded(front, data, i);
        assert(front[i] == signals[i]);
        if forall|j: int| i < j < signals.len() ==> (#[trigger] signals[j]).name != signals[i].name {
            assert forall|j: int| i < j < front.len() implies (#[trigger] front[j]).name
                != front[i].name by {
                assert(front[j] == signals[j]);
            }
            assert(signals[signals.len() - 1].name != signals[i].name);
        }
    } else if front.len() > 0 {
        every_signal_is_decoded(front, data, 0);
    }
    assert forall|name: Seq<char>| #[trigger]
        decoded(signals, data).dom().contains(name) implies exists|j: int|
        0 <= j < signals.len() && (#[trigger] signals[j]).name == name by {
        if name == signals.last().name {
            assert(signals[signals.len() - 1].name == name);
        } else {
            assert(decoded(front, data).dom().contains(name));
            assert(front.len() > 0);
            let j = choose|j: int| 0 <= j < front.len() && (#[trigger] front[j]).name == name;
            assert(signals[j].name == name);
        }
    }
}

/// The message that a message line begins has the signals of the lines behind it, in their
/// order, and stands under its identifier.
pub proof fn message_with_its_signals(
    lines: Seq<Seq<char>>,
    message: DbcMessageView,
    signals: Seq<DbcSignalView>,
)
    requires
        lines.len() == 1 + signals.len(),
        "BO_ "@.is_prefix_of(text::trimmed(lines[0])),
        message_of(text::trimmed(lines[0])) == Ok::<DbcMessageView, ErrorView>(message),
        forall|i: int|
            0 <= i < signals.len() ==> "SG_ "@.is_prefix_of(
                text::trimmed(#[trigger] lines[i + 1]),
            ) && signal_of(text::trimmed(lines[i + 1])) == Ok::<DbcSignalView, ErrorView>(
                signals[i],
            ),
    ensures
        message.signals.len() == 0,
        database_of(lines, Map::empty(), None) == Ok::<Map<u32, DbcMessageView>, ErrorView>(
            Map::<u32, DbcMessageView>::empty().insert(
                message.id,
                DbcMessageView { signals, ..message },
            ),
        ),
{
    let empty = Map::<u32, DbcMessageView>::empty();
    reveal_strlit("BO_ ");
    lemma_signal_lines(lines.skip(1), empty, message, signals);
    assert(message.signals + signals =~= signals);
    assert(text::has_prefix(text::trimmed(lines[0]), "BO_ "@)) by {
        assert(text::trimmed(lines[0]).take(4) =~= "BO_ "@);
    }
}

proof fn lemma_signal_lines(
    lines: Seq<Seq<char>>,
    db: Map<u32, DbcMessageView>,
    message: DbcMessageView,
    signals: Seq<DbcSignalView>,
)
    requires
        lines.len() == signals.len(),
        forall|i: int|
            0 <= i < signals.len() ==> "SG_ "@.is_prefix_of(text::trimmed(#[trigger] lines[i]))
                && signal_of(text::trimmed(lines[i])) == Ok::<DbcSignalView, ErrorView>(
                signals[i],
            ),
    ensures
        database_of(lines, db, Some(message)) == Ok::<Map<u32, DbcMessageView>, ErrorView>(
            db.insert(
                message.id,
                DbcMessageView { signals: message.signals + signals, ..message },
            ),
        ),
    decreases lines.len(),
{
    if lines.len() == 0 {
        assert(message.signals + signals =~= message.signals);
    } else {
        let line = text::trimmed(lines[0]);
        let more = DbcMessageView { signals: message.signals.push(signals[0]), ..message };
        reveal_strlit("SG_ ");
        reveal_strlit("BO_ ");
        assert("SG_ "@.is_prefix_of(line));
        assert(line.take(4) =~= "SG_ "@);
        assert(line[0] == "SG_ "@[0]);
        assert(!text::has_prefix(line, "BO_ "@)) by {
            assert(line.take(4)[0] != "BO_ "@[0]);
        }
        assert forall|i: int| 0 <= i < signals.skip(1).len() implies "SG_ "@.is_prefix_of(
            text::trimmed(#[trigger] lines.skip(1)[i]),
        ) && signal_of(text::trimmed(lines.skip(1)[i])) == Ok::<DbcSignalView, ErrorView>(
            signals.skip(1)[i],
        ) by {
            assert(lines.skip(1)[i] == lines[i + 1]);
        }
        lemma_signal_lines(lines.skip(1), db, more, signals.skip(1));
        assert(more.signals + signals.skip(1) =~= message.signals + signals);
    }
}

/// Whether text has no character that separates the parts of a signal line.
pub open spec fn is_plain(s: Seq<char>) -> bool {
    forall|i: int|
        0 <= i < s.len() ==> !text::is_space(#[trigger] s[i]) && s[i] != ':' && s[i] != '|' && s[i]
            != '@' && s[i] != '(' && s[i] != ')' && s[i] != ',' && s[i] != '[' && s[i] != ']' && s[i]
            != '"'
}

/// The layout of a signal as a file writes it.
pub open spec fn layout_text(s: DbcSignalView) -> Seq<char> {
    text::number_text(s.start_bit as nat, 10) + "|"@ + text::number_text(s.length as nat, 10) + "@"@
        + (match s.byte_order {
        ByteOrder::LittleEndian => "1"@,
        ByteOrder::BigEndian => "0"@,
    }) + (match s.value_type {
        ValueType::Unsigned => "+"@,
        ValueType::Signed => "-"@,
    })
}

/// The line that defines a signal; behind the name there may be the mark of a multiplexer.
pub open spec fn signal_text(
    s: DbcSignalView,
    mark: Seq<char>,
    receivers: Seq<char>,
) -> Seq<char> {
    "SG_ "@ + s.name + mark + " : "@ + layout_text(s) + " ("@ + s.factor + ","@ + s.offset + ") ["@ + s.min
        + "|"@ + s.max + "] \""@ + s.unit + "\" "@ + receivers
}

proof fn lemma_decimal_is_plain(n: nat)
    ensures
        is_plain(text::number_text(n, 10)),
        text::number_text(n, 10).len() > 0,
{
    text::number_text_reads_back(n, 10, 0, n);
    let t = text::number_text(n, 10);
    assert forall|i: int| 0 <= i < t.len() implies !text::is_space(#[trigger] t[i]) && t[i] != ':'
        && t[i] != '|' && t[i] != '@' && t[i] != '(' && t[i] != ')' && t[i] != ',' && t[i] != '['
        && t[i] != ']' && t[i] != '"' by {
        assert(text::digit_value(t[i]) < 10);
    }
}

/// A layout is a start bit and a length of up to 255, and two marks: `1` for Intel or `0` for
/// Motorola, and `+` or `-` for the sign. Larger numbers and other marks are refused.
pub proof fn layouts_and_their_marks(start: nat, length: nat, order: char, sign: char)
    ensures
        layout_of(
            text::number_text(start, 10) + seq!['|'] + text::number_text(length, 10) + seq![
                '@',
                order,
                sign,
            ],
        ) matches Ok(l) ==> {
            &&& l.start_bit == start
            &&& l.length == length
            &&& order == '1' && l.byte_order == ByteOrder::LittleEndian || order == '0'
                && l.byte_order == ByteOrder::BigEndian
            &&& sign == '+' && l.value_type == ValueType::Unsigned || sign == '-' && l.value_type
                == ValueType::Signed
        },
        layout_of(
            text::number_text(start, 10) + seq!['|'] + text::number_text(length, 10) + seq![
                '@',
                order,
                sign,
            ],
        ) is Ok <==> start <= 255 && length <= 255 && (order == '0' || order == '1') && (sign == '+'
            || sign == '-'),
{
    let a = text::number_text(start, 10);
    let b = text::number_text(length, 10);
    let flags = seq![order, sign];
    let t = a + seq!['|'] + b + seq!['@', order, sign];
    lemma_decimal_is_plain(start);
    lemma_decimal_is_plain(length);
    lemma_small_number(start);
    lemma_small_number(length);
    let front = a + seq!['|'] + b;
    let back = seq!['|'] + b + seq!['@', order, sign];
    assert(t =~= a + back);
    text::first_place(a, back, '|');
    assert forall|i: int| 0 <= i < front.len() implies front[i] != '@' by {
        if i < a.len() {
            assert(front[i] == a[i]);
        } else if i > a.len() {
            assert(front[i] == b[i - a.len() - 1]);
        }
    }
    assert(t =~= front + seq!['@', order, sign]);
    text::first_place(front, seq!['@', order, sign], '@');
    assert(t.take(a.len() as int) =~= a);
    assert(t.subrange(a.len() as int + 1, front.len() as int) =~= b);
    assert(t.skip(front.len() as int + 1) =~= flags);
    assert(flags[0] == order && flags[1] == sign);
}

/// A number is read up to a byte.
proof fn lemma_small_number(n: nat)
    ensures
        text::parse_number(text::number_text(n, 10), 10, 255) == (if n <= 255 {
            Some(n)
        } else {
            None
        }),
{
    text::number_text_reads_back(n, 10, 0, n);
}

proof fn lemma_layout_text(s: DbcSignalView)
    ensures
        layout_of(layout_text(s)) == Ok::<Layout, ErrorView>(
            Layout {
                start_bit: s.start_bit,
                length: s.length,
                byte_order: s.byte_order,
                value_type: s.value_type,
            },
        ),
        layout_text(s).len() > 0,
        forall|i: int|
            0 <= i < layout_text(s).len() ==> !text::is_space(#[trigger] layout_text(s)[i]),
{
    reveal_strlit("|");
    reveal_strlit("@");
    reveal_strlit("1");
    reveal_strlit("0");
    reveal_strlit("+");
    reveal_strlit("-");
    let a = text::number_text(s.start_bit as nat, 10);
    let b = text::number_text(s.length as nat, 10);
    let order: char = match s.byte_order {
        ByteOrder::LittleEndian => '1',
        ByteOrder::BigEndian => '0',
    };
    let sign: char = match s.value_type {
        ValueType::Unsigned => '+',
        ValueType::Signed => '-',
    };
    let t = layout_text(s);
    assert(t =~= a + seq!['|'] + b + seq!['@', order, sign]);
    layouts_and_their_marks(s.start_bit as nat, s.length as nat, order, sign);
    lemma_decimal_is_plain(s.start_bit as nat);
    lemma_decimal_is_plain(s.length as nat);
    assert forall|i: int| 0 <= i < t.len() implies !text::is_space(#[trigger] t[i]) by {
        if i < a.len() {
            assert(t[i] == a[i]);
        } else if a.len() < i < a.len() + 1 + b.len() {
            assert(t[i] == b[i - a.len() - 1]);
        }
    }
}

/// Blanks in front of text that neither begins nor ends with white space come off.
proof fn lemma_blank_in_front(s: Seq<char>)
    requires
        s.len() > 0,
        !text::is_space(s[0]),
        !text::is_space(s.last()),
    ensures
        text::trimmed(seq![' '] + s) == s,
{
    text::trimming_undoes_blanks(seq![' '], s, Seq::empty());
    assert(seq![' '] + s + Seq::empty() =~= seq![' '] + s);
}

/// Where two parts in brackets with a mark between them stand in a text.
proof fn lemma_bracketed(
    left: char,
    x: Seq<char>,
    mark: char,
    y: Seq<char>,
    right: char,
    rest: Seq<char>,
)
    requires
        forall|i: int| 0 <= i < x.len() ==> x[i] != right && x[i] != mark,
        forall|i: int| 0 <= i < y.len() ==> y[i] != right,
        left != right,
        mark != right,
    ensures
        ({
            let s = seq![left] + x + seq![mark] + y + seq![right, ' '] + rest;
            let end = 2 + x.len() + y.len() as int;
            let inner = s.subrange(1, end);
            &&& s.index_of_first(left) == Some(0int)
            &&& s.index_of_first(right) == Some(end)
            &&& inner.index_of_first(mark) == Some(x.len() as int)
            &&& inner.take(x.len() as int) == x
            &&& inner.skip(x.len() as int + 1) == y
            &&& s.skip(end + 1) == seq![' '] + rest
            &&& s[0] == left
        }),
{
    let inner = x + seq![mark] + y;
    let s = seq![left] + x + seq![mark] + y + seq![right, ' '] + rest;
    let front = seq![left] + inner;
    let back = seq![right, ' '] + rest;
    assert(s =~= Seq::<char>::empty() + s);
    text::first_place(Seq::empty(), s, left);
    assert(s =~= front + back);
    assert forall|i: int| 0 <= i < front.len() implies front[i] != right by {
        if 1 <= i <= x.len() {
            assert(front[i] == x[i - 1]);
        } else if i > x.len() + 1 {
            assert(front[i] == y[i - x.len() - 2]);
        }
    }
    text::first_place(front, back, right);
    assert(s.subrange(1, front.len() as int) =~= inner);
    assert(inner =~= x + (seq![mark] + y));
    text::first_place(x, seq![mark] + y, mark);
    assert(inner.take(x.len() as int) =~= x);
    assert(inner.skip(x.len() as int + 1) =~= y);
    assert(s.skip(front.len() as int + 1) =~= seq![' '] + rest);
}

proof fn lemma_scale_text(factor: Seq<char>, offset: Seq<char>, rest: Seq<char>)
    requires
        is_plain(factor) && text::is_float(factor),
        is_plain(offset) && text::is_float(offset),
        rest.len() > 0,
        !text::is_space(rest[0]),
        !text::is_space(rest.last()),
    ensures
        scale_of(seq!['('] + factor + seq![','] + offset + seq![')', ' '] + rest) == Ok::<
            (Seq<char>, Seq<char>, Seq<char>),
            ErrorView,
        >((factor, offset, rest)),
{
    lemma_bracketed('(', factor, ',', offset, ')', rest);
    lemma_blank_in_front(rest);
}

/// How a limit reads: as it is written where it is a number, else as zero.
pub open spec fn limit_read(s: Seq<char>) -> Seq<char> {
    if text::is_float(s) { s } else { seq!['0'] }
}

proof fn lemma_range_text(min: Seq<char>, max: Seq<char>, rest: Seq<char>)
    requires
        is_plain(min),
        is_plain(max),
        rest.len() > 0,
        !text::is_space(rest[0]),
        !text::is_space(rest.last()),
    ensures
        range_of(seq!['['] + min + seq!['|'] + max + seq![']', ' '] + rest) == Ok::<
            (Seq<char>, Seq<char>, Seq<char>),
            ErrorView,
        >((limit_read(min), limit_read(max), rest)),
{
    reveal_strlit("0");
    assert("0"@ =~= seq!['0']);
    lemma_bracketed('[', min, '|', max, ']', rest);
    lemma_blank_in_front(rest);
}

proof fn lemma_unit_text(unit: Seq<char>, rest: Seq<char>)
    requires
        forall|i: int| 0 <= i < unit.len() ==> unit[i] != '"',
    ensures
        unit_of(seq!['"'] + unit + seq!['"'] + rest) == Ok::<Seq<char>, ErrorView>(unit),
{
    let s = seq!['"'] + unit + seq!['"'] + rest;
    assert(s.skip(1) =~= unit + (seq!['"'] + rest));
    text::first_place(unit, seq!['"'] + rest, '"');
    assert(s.subrange(1, unit.len() as int + 1) =~= unit);
    assert(s[0] == '"');
}

/// A signal line from its unit on.
spec fn text_from_unit(s: DbcSignalView, receivers: Seq<char>) -> Seq<char> {
    seq!['"'] + s.unit + seq!['"'] + (seq![' '] + receivers)
}

/// A signal line from its limits on.
spec fn text_from_range(s: DbcSignalView, receivers: Seq<char>) -> Seq<char> {
    seq!['['] + s.min + seq!['|'] + s.max + seq![']', ' '] + text_from_unit(s, receivers)
}

/// A signal line from its factor on.
spec fn text_from_scale(s: DbcSignalView, receivers: Seq<char>) -> Seq<char> {
    seq!['('] + s.factor + seq![','] + s.offset + seq![')', ' '] + text_from_range(s, receivers)
}

proof fn lemma_signal_text_parts(s: DbcSignalView, mark: Seq<char>, receivers: Seq<char>)
    ensures
        signal_text(s, mark, receivers) == seq!['S', 'G', '_', ' '] + s.name + mark + seq![
            ' ',
            ':',
            ' ',
        ] + layout_text(s) + seq![' '] + text_from_scale(s, receivers),
{
    reveal_strlit("SG_ ");
    reveal_strlit(" : ");
    reveal_strlit(" (");
    reveal_strlit(",");
    reveal_strlit(") [");
    reveal_strlit("|");
    reveal_strlit("] \"");
    reveal_strlit("\" ");
    assert("SG_ "@ =~= seq!['S', 'G', '_', ' ']);
    assert(" : "@ =~= seq![' ', ':', ' ']);
    let a = s.min + "|"@ + s.max + "] \""@ + s.unit + "\" "@ + receivers;
    assert(seq!['['] + a =~= text_from_range(s, receivers));
    let b = s.factor + ","@ + s.offset + ") ["@ + a;
    assert(seq!['('] + b =~= text_from_scale(s, receivers));
    let front = "SG_ "@ + s.name + mark + " : "@ + layout_text(s);
    assert(signal_text(s, mark, receivers) =~= front + " ("@ + b);
    assert(front + " ("@ + b =~= front + seq![' '] + text_from_scale(s, receivers));
}

/// Whether text is nothing, or words behind a blank without a colon.
pub open spec fn is_mark(s: Seq<char>) -> bool {
    s.len() == 0 || (s[0] == ' ' && !text::is_space(s.last()) && forall|i: int|
        0 <= i < s.len() ==> s[i] != ':')
}

/// Name and layout stand where a signal line has them.
proof fn lemma_signal_front(
    name: Seq<char>,
    mark: Seq<char>,
    layout: Seq<char>,
    back: Seq<char>,
    line: Seq<char>,
)
    requires
        name.len() > 0 && is_plain(name),
        is_mark(mark),
        layout.len() > 0,
        forall|i: int| 0 <= i < layout.len() ==> !text::is_space(#[trigger] layout[i]),
        back.len() > 0,
        !text::is_space(back.last()),
        line == seq!['S', 'G', '_', ' '] + name + mark + seq![' ', ':', ' '] + layout + seq![' ']
            + back,
    ensures
        line.index_of_first(':') == Some(5 + name.len() + mark.len() as int),
        first_word(text::trimmed(line.subrange(4, 5 + name.len() + mark.len() as int))) == name,
        ({
            let rest = text::trimmed(line.skip(6 + name.len() + mark.len() as int));
            &&& rest.index_of_first(' ') == Some(layout.len() as int)
            &&& rest.take(layout.len() as int) == layout
            &&& rest.skip(layout.len() as int) == seq![' '] + back
        }),
{
    let both = name + mark;
    let front = seq!['S', 'G', '_', ' '] + both + seq![' '];
    let rest = layout + (seq![' '] + back);
    assert(line =~= front + (seq![':', ' '] + rest));
    assert forall|i: int| 0 <= i < front.len() implies front[i] != ':' by {
        if 4 <= i < 4 + name.len() {
            assert(front[i] == name[i - 4]);
        } else if 4 + name.len() <= i < 4 + both.len() {
            assert(front[i] == mark[i - 4 - name.len()]);
        }
    }
    text::first_place(front, seq![':', ' '] + rest, ':');
    assert(line.subrange(4, front.len() as int) =~= Seq::<char>::empty() + both + seq![' ']);
    assert(both[0] == name[0]);
    assert(!text::is_space(both.last())) by {
        if mark.len() == 0 {
            assert(both.last() == name[name.len() - 1]);
        } else {
            assert(both.last() == mark.last());
        }
    }
    text::trimming_undoes_blanks(Seq::empty(), both, seq![' ']);
    text::words_in_front(name, mark);
    assert(line.skip(front.len() as int + 1) =~= seq![' '] + rest);
    assert(rest[0] == layout[0] && rest.last() == back.last());
    lemma_blank_in_front(rest);
    text::first_place(layout, seq![' '] + back, ' ');
    assert(rest.take(layout.len() as int) =~= layout);
    assert(rest.skip(layout.len() as int) =~= seq![' '] + back);
}

/// A signal line is read as the signal that it writes: name, place, bit order and sign,
/// factor and offset, limits and unit, each from its own place in the line. A limit that is
/// no number reads as zero, and the mark of a multiplexer behind the name is not part of it.
pub proof fn signal_line_reads_back(s: DbcSignalView, mark: Seq<char>, receivers: Seq<char>)
    requires
        is_mark(mark),
        s.name.len() > 0 && is_plain(s.name),
        text::is_float(s.factor) && is_plain(s.factor),
        text::is_float(s.offset) && is_plain(s.offset),
        is_plain(s.min),
        is_plain(s.max),
        forall|i: int| 0 <= i < s.unit.len() ==> s.unit[i] != '"',
        receivers.len() > 0,
        !text::is_space(receivers.last()),
    ensures
        signal_of(signal_text(s, mark, receivers)) == Ok::<DbcSignalView, ErrorView>(
            DbcSignalView { min: limit_read(s.min), max: limit_read(s.max), ..s },
        ),
{
    lemma_signal_text_parts(s, mark, receivers);
    let name = s.name;
    let unit_part = text_from_unit(s, receivers);
    let range_part = text_from_range(s, receivers);
    let scale_part = text_from_scale(s, receivers);
    let layout = layout_text(s);
    let line = signal_text(s, mark, receivers);
    lemma_layout_text(s);
    assert(unit_part[0] == '"' && unit_part.last() == receivers.last());
    assert(range_part[0] == '[' && range_part.last() == receivers.last());
    assert(scale_part[0] == '(' && scale_part.last() == receivers.last());
    lemma_signal_front(name, mark, layout, scale_part, line);
    lemma_blank_in_front(scale_part);
    lemma_scale_text(s.factor, s.offset, range_part);
    lemma_range_text(s.min, s.max, unit_part);
    lemma_unit_text(s.unit, seq![' '] + receivers);
}

/// A message line is read as the message that it writes: identifier, name and length, each
/// from its own place in the line.
pub proof fn message_line_reads_back(id: u32, name: Seq<char>, dlc: u8, sender: Seq<char>)
    requires
        is_plain(name),
    ensures
        message_of(
            "BO_ "@ + text::number_text(id as nat, 10) + " "@ + name + ": "@ + text::number_text(
                dlc as nat,
                10,
            ) + " "@ + sender,
        ) == Ok::<DbcMessageView, ErrorView>(
            DbcMessageView { id, name, dlc, signals: Seq::empty() },
        ),
{
    reveal_strlit("BO_ ");
    reveal_strlit(" ");
    reveal_strlit(": ");
    let a = text::number_text(id as nat, 10);
    let b = name + seq![':'];
    let c = text::number_text(dlc as nat, 10);
    let bo = seq!['B', 'O', '_'];
    let line = "BO_ "@ + a + " "@ + name + ": "@ + c + " "@ + sender;
    lemma_decimal_is_plain(id as nat);
    lemma_decimal_is_plain(dlc as nat);
    text::number_text_reads_back(id as nat, 10, 0, u32::MAX as nat);
    text::number_text_reads_back(dlc as nat, 10, 0, 255);
    let l3 = c + seq![' '] + sender;
    let l2 = b + seq![' '] + l3;
    let l1 = a + seq![' '] + l2;
    assert(line =~= bo + seq![' '] + l1);
    assert forall|i: int| 0 <= i < b.len() implies b[i] != ' ' by {
        if i < name.len() {
            assert(b[i] == name[i]);
        }
    }
    text::pieces_are_cut_off_in_front(bo, l1, 5, ' ');
    text::pieces_are_cut_off_in_front(a, l2, 4, ' ');
    text::pieces_are_cut_off_in_front(b, l3, 3, ' ');
    text::pieces_are_cut_off_in_front(c, sender, 2, ' ');
    assert(text::split_at_most(sender, 1, ' ') =~= seq![sender]);
    assert(text::split_at_most(line, 5, ' ') =~= seq![bo, a, b, c, sender]);
    assert(b.drop_last() =~= name);
    assert(text::trim_end_of(b, ':') == text::trim_end_of(name, ':'));
    if name.len() > 0 {
        assert(name[name.len() - 1] != ':');
    }
}

} // verus!
