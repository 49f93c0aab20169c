//! Candump logs: one frame per line, with the time at which it was seen.
//!
//! ```text
//! (timestamp) iface can_id#hexdata
//! (timestamp) iface can_id##flagshexdata   (CAN FD)
//! ```
use vstd::prelude::*;
use vstd::slice::slice_subrange;

use crate::error::{Error, ErrorView};
use crate::frame;
use crate::frame::{Frame, FrameView};
use crate::hexcodec;
use crate::text;
use crate::time::Duration;

verus! {

// ---------------------------------------------------------------------------
// Timestamps
// ---------------------------------------------------------------------------

/// The first six characters of `s`, with zeros behind where there are fewer.
pub open spec fn six_places(s: Seq<char>) -> Seq<char> {
    Seq::new(6, |i: int| if i < s.len() { s[i] } else { '0' })
}

/// The time that `SECONDS` or `SECONDS.FRACTION` writes. Of the fraction six places count.
pub open spec fn timestamp_of(s: Seq<char>) -> Result<Duration, ErrorView> {
    let bad = ErrorView::Other("recorder: invalid timestamp "@ + text::debug_text(s));
    match s.index_of_first('.') {
        None => match text::parse_number(s, 10, u64::MAX as nat) {
            Some(secs) => Ok(Duration { secs: secs as u64, nanos: 0 }),
            None => Err(bad),
        },
        Some(dot) => match (
            text::parse_number(s.take(dot), 10, u64::MAX as nat),
            text::parse_number(six_places(s.skip(dot + 1)), 10, u64::MAX as nat),
        ) {
            (Some(secs), Some(micros)) => Ok(
                Duration { secs: secs as u64, nanos: (micros * 1000) as u32 },
            ),
            _ => Err(bad),
        },
    }
}

/// Ten to the power `n`.
spec fn ten_to(n: nat) -> nat
    decreases n,
{
    if n == 0 { 1 } else { 10 * ten_to((n - 1) as nat) }
}

proof fn lemma_value_below(s: Seq<char>)
    requires
        text::is_number(s, 10),
    ensures
        text::number_value(s, 10) < ten_to(s.len()),
    decreases s.len(),
{
    if s.len() > 0 {
        let t = s.drop_last();
        assert forall|i: int| 0 <= i < t.len() implies #[trigger] text::digit_value(t[i]) < 10 by {
            assert(text::digit_value(s[i]) < 10);
        }
        lemma_value_below(t);
        assert(text::digit_value(s[s.len() - 1]) < 10);
    }
}

proof fn lemma_six_places_value(s: Seq<char>)
    ensures
        text::parse_number(six_places(s), 10, u64::MAX as nat) matches Some(v) ==> v < 1_000_000,
{
    let t = text::without_plus(six_places(s));
    if text::is_number(t, 10) {
        lemma_value_below(t);
        reveal_with_fuel(ten_to, 7);
        assert(ten_to(5) == 100_000 && ten_to(6) == 1_000_000);
    }
}

fn bad_timestamp(s: &[char]) -> (e: Error)
    ensures
        e@ == ErrorView::Other("recorder: invalid timestamp "@ + text::debug_text(s@)),
{
    let t = text::string_of(s);
    let shown = text::debug_string(t.as_str());
    Error::Other(text::join2("recorder: invalid timestamp ", shown.as_str()))
}

fn timestamp(s: &[char]) -> (r: Result<Duration, Error>)
    ensures
        match r {
            Ok(d) => timestamp_of(s@) == Ok::<Duration, ErrorView>(d) && d.wf(),
            Err(e) => timestamp_of(s@) == Err::<Duration, ErrorView>(e@),
        },
{
    let n: usize = s.len();
    match text::find(s, '.') {
        None => match text::parse_unsigned(s, 10, u64::MAX) {
            Some(secs) => Ok(Duration::from_secs(secs)),
            None => Err(bad_timestamp(s)),
        },
        Some(dot) => {
            let head = slice_subrange(s, 0, dot);
            assert(head@ =~= s@.take(dot as int));
            let tail = slice_subrange(s, dot + 1, n);
            assert(tail@ =~= s@.skip(dot + 1));
            let secs: u64 = match text::parse_unsigned(head, 10, u64::MAX) {
                Some(v) => v,
                None => return Err(bad_timestamp(s)),
            };
            let mut places: Vec<char> = Vec::new();
            let mut i: usize = 0;
            while i < 6
                invariant
                    i <= 6,
                    places@ == six_places(tail@).take(i as int),
                decreases 6 - i,
            {
                places.push(if i < tail.len() { tail[i] } else { '0' });
                i += 1;
            }
            assert(six_places(tail@).take(6) =~= six_places(tail@));
            let micros: u64 = match text::parse_unsigned(&places, 10, u64::MAX) {
                Some(v) => v,
                None => return Err(bad_timestamp(s)),
            };
            proof {
                lemma_six_places_value(tail@);
            }
            Ok(Duration { secs, nanos: (micros * 1000) as u32 })
        },
    }
}

/// Reads a timestamp without its brackets.
pub fn parse_timestamp(s: &str) -> (r: Result<Duration, Error>)
    ensures
        match r {
            Ok(d) => timestamp_of(s@) == Ok::<Duration, ErrorView>(d) && d.wf(),
            Err(e) => timestamp_of(s@) == Err::<Duration, ErrorView>(e@),
        },
{
    let chars = text::chars_of(s);
    timestamp(&chars)
}

// ---------------------------------------------------------------------------
// Frames
// ---------------------------------------------------------------------------

/// Position of the first `##` in `s` from position `from` on.
pub open spec fn double_hash(s: Seq<char>, from: int) -> Option<int>
    decreases s.len() - from,
{
    if from + 1 >= s.len() {
        None
    } else if s[from] == '#' && s[from + 1] == '#' {
        Some(from)
    } else {
        double_hash(s, from + 1)
    }
}

/// An error of this module.
pub open spec fn complaint(s: Seq<char>) -> ErrorView {
    ErrorView::Other("recorder: "@ + s)
}

/// The frame that a log field writes. `ID##FFDATA` is a CAN FD frame with the flags `FF`,
/// of which bit 0 is the bit rate switch. `ID#DATA` is a classic frame, in extended format
/// where the identifier needs it.
pub open spec fn frame_of(s: Seq<char>) -> Result<FrameView, ErrorView> {
    let bad_id = complaint("invalid CAN ID in "@ + text::debug_text(s));
    match double_hash(s, 0) {
        Some(at) => match text::parse_number(s.take(at), 16, u32::MAX as nat) {
            None => Err(bad_id),
            Some(id) => {
                let rest = s.skip(at + 2);
                if rest.len() == 0 || (rest.len() == 1 && (rest[0] as u32) < 128) {
                    Err(complaint("FD frame missing flags byte"@))
                } else if rest.len() < 2 || hexcodec::hex_bytes(rest.take(2)) is None {
                    Err(complaint("invalid FD flags byte"@))
                } else {
                    let flags = hexcodec::hex_bytes(rest.take(2))->0[0];
                    match hexcodec::hex_bytes(rest.skip(2)) {
                        None => Err(complaint("invalid FD data"@)),
                        Some(data) => Ok(
                            FrameView {
                                fd: true,
                                brs: flags % 2 == 1,
                                ..frame::plain_frame(id as u32, data)
                            },
                        ),
                    }
                }
            },
        },
        None => match s.index_of_first('#') {
            None => Err(complaint("missing '#' in frame field "@ + text::debug_text(s))),
            Some(at) => match text::parse_number(s.take(at), 16, u32::MAX as nat) {
                None => Err(bad_id),
                Some(id) => match hexcodec::hex_bytes(s.skip(at + 1)) {
                    None => Err(complaint("invalid data hex"@)),
                    Some(data) => Ok(
                        FrameView { ext: id > 0x7FF, ..frame::plain_frame(id as u32, data) },
                    ),
                },
            },
        },
    }
}

fn find_double_hash(s: &[char]) -> (r: Option<usize>)
    ensures
        match r {
            Some(i) => double_hash(s@, 0) == Some(i as int) && i + 1 < s@.len(),
            None => double_hash(s@, 0) is None,
        },
{
    let n: usize = s.len();
    if n < 2 {
        return None;
    }
    let mut i: usize = 0;
    while i < n - 1
        invariant
            2 <= n == s@.len(),
            i <= n - 1,
            double_hash(s@, 0) == double_hash(s@, i as int),
        decreases n - i,
    {
        if s[i] == '#' && s[i + 1] == '#' {
            return Some(i);
        }
        i += 1;
    }
    None
}

fn complain(s: &str) -> (e: Error)
    ensures
        e@ == complaint(s@),
{
    Error::Other(text::join2("recorder: ", s))
}

fn complain_of(what: &str, s: &[char]) -> (e: Error)
    ensures
        e@ == complaint(what@ + text::debug_text(s@)),
{
    let t = text::string_of(s);
    let shown = text::debug_string(t.as_str());
    let all = text::join2(what, shown.as_str());
    complain(all.as_str())
}

fn bytes_of(s: &[char]) -> (r: Option<Vec<u8>>)
    ensures
        match r {
            Some(v) => hexcodec::hex_bytes(s@) == Some(v@),
            None => hexcodec::hex_bytes(s@) is None,
        },
{
    let t = text::string_of(s);
    match hexcodec::decode(t.as_str()) {
        Ok(v) => Some(v),
        Err(_) => None,
    }
}

/// Reads the frame field of a log line.
pub fn parse_frame_str(s: &[char]) -> (r: Result<Frame, Error>)
    ensures
        match r {
            Ok(f) => frame_of(s@) == Ok::<FrameView, ErrorView>(f@),
            Err(e) => frame_of(s@) == Err::<FrameView, ErrorView>(e@),
        },
{
    let n: usize = s.len();
    match find_double_hash(s) {
        Some(at) => {
            let head = slice_subrange(s, 0, at);
            assert(head@ =~= s@.take(at as int));
            let id: u64 = match text::parse_unsigned(head, 16, 0xFFFF_FFFF) {
                Some(v) => v,
                None => return Err(complain_of("invalid CAN ID in ", s)),
            };
            let rest = slice_subrange(s, at + 2, n);
            assert(rest@ =~= s@.skip(at + 2));
            let m: usize = rest.len();
            if m == 0 || (m == 1 && (rest[0] as u32) < 128) {
                return Err(complain("FD frame missing flags byte"));
            }
            if m < 2 {
                return Err(complain("invalid FD flags byte"));
            }
            let first = slice_subrange(rest, 0, 2);
            assert(first@ =~= rest@.take(2));
            let flags: u8 = match bytes_of(first) {
                Some(v) => {
                    assert(v@.len() == 1);
                    v[0]
                },
                None => return Err(complain("invalid FD flags byte")),
            };
            let tail = slice_subrange(rest, 2, m);
            assert(tail@ =~= rest@.skip(2));
            let data = match bytes_of(tail) {
                Some(v) => v,
                None => return Err(complain("invalid FD data")),
            };
            let mut f = Frame::default();
            f.id = id as u32;
            f.fd = true;
            f.brs = flags % 2 == 1;
            f.data = data;
            Ok(f)
        },
        None => match text::find(s, '#') {
            None => Err(complain_of("missing '#' in frame field ", s)),
            Some(at) => {
                let head = slice_subrange(s, 0, at);
                assert(head@ =~= s@.take(at as int));
                let id: u64 = match text::parse_unsigned(head, 16, 0xFFFF_FFFF) {
                    Some(v) => v,
                    None => return Err(complain_of("invalid CAN ID in ", s)),
                };
                let tail = slice_subrange(s, at + 1, n);
                assert(tail@ =~= s@.skip(at + 1));
                let data = match bytes_of(tail) {
                    Some(v) => v,
                    None => return Err(complain("invalid data hex")),
                };
                let mut f = Frame::default();
                f.id = id as u32;
                f.ext = id > 0x7FF;
                f.data = data;
                Ok(f)
            },
        },
    }
}

// ---------------------------------------------------------------------------
// Lines
// ---------------------------------------------------------------------------

/// The time and the frame that a log line writes.
pub open spec fn line_of(s: Seq<char>) -> Result<(Duration, FrameView), ErrorView> {
    let fields = text::words(s);
    let stamp = fields[0];
    if fields.len() != 3 {
        Err(complaint("expected 3 fields in "@ + text::debug_text(s)))
    } else if stamp[0] != '(' || stamp.last() != ')' {
        Err(complaint("bad timestamp "@ + text::debug_text(stamp)))
    } else {
        match timestamp_of(stamp.subrange(1, stamp.len() - 1)) {
            Err(e) => Err(e),
            Ok(ts) => match frame_of(fields[2]) {
                Err(e) => Err(e),
                Ok(f) => Ok((ts, f)),
            },
        }
    }
}

proof fn lemma_words_not_empty(s: Seq<char>)
    ensures
        forall|i: int| 0 <= i < text::words(s).len() ==> #[trigger] text::words(s)[i].len() > 0,
    decreases s.len(),
{
    let t = text::trim_start(s);
    text::lemma_trim_start_len(s);
    text::lemma_word_len(t);
    if t.len() > 0 {
        let rest = t.skip(text::word_len(t) as int);
        lemma_words_not_empty(rest);
        assert forall|i: int| 0 <= i < text::words(s).len() implies #[trigger] text::words(
            s,
        )[i].len() > 0 by {
            if i > 0 {
                assert(text::words(s)[i] == text::words(rest)[i - 1]);
            }
        }
    }
}

/// Reads a log line.
pub fn parse_line(line: &str) -> (r: Result<(Duration, Frame), Error>)
    ensures
        match r {
            Ok((ts, f)) => line_of(line@) == Ok::<(Duration, FrameView), ErrorView>((ts, f@))
                && ts.wf(),
            Err(e) => line_of(line@) == Err::<(Duration, FrameView), ErrorView>(e@),
        },
{
    let chars = text::chars_of(line);
    let fields = text::split_whitespace(&chars);
    let ghost views = text::words(line@);
    assert(text::pieces(fields@) == views);
    if fields.len() != 3 {
        return Err(complain_of("expected 3 fields in ", &chars));
    }
    assert(views[0] == fields@[0]@ && views[2] == fields@[2]@);
    proof {
        lemma_words_not_empty(line@);
        assert(views[0].len() > 0);
    }
    let stamp: &[char] = fields[0];
    let n: usize = stamp.len();
    if stamp[0] != '(' || stamp[n - 1] != ')' {
        return Err(complain_of("bad timestamp ", stamp));
    }
    assert(n > 1);
    let ts = match timestamp(slice_subrange(stamp, 1, n - 1)) {
        Ok(d) => d,
        Err(e) => return Err(e),
    };
    match parse_frame_str(fields[2]) {
        Ok(f) => Ok((ts, f)),
        Err(e) => Err(e),
    }
}

/// The timestamp of a log line.
pub open spec fn stamp_text(ts: Duration) -> Seq<char> {
    "("@ + text::number_text(ts.secs as nat, 10) + "."@ + text::padded_text(
        (ts.nanos / 1000) as nat,
        10,
        6,
    ) + ")"@
}

/// The frame field of a log line.
pub open spec fn frame_text(f: FrameView) -> Seq<char> {
    let id = text::number_text(f.id as nat, 16);
    if f.fd {
        id + "##"@ + text::padded_text(if f.brs { 1 } else { 0 }, 16, 2) + hexcodec::hex_upper(
            f.data,
        )
    } else {
        id + "#"@ + hexcodec::hex_upper(f.data)
    }
}

/// A log line.
pub open spec fn line_text(iface: Seq<char>, ts: Duration, f: FrameView) -> Seq<char> {
    stamp_text(ts) + " "@ + iface + " "@ + frame_text(f)
}

/// Writes a log line.
pub fn format_line(iface: &str, ts: Duration, f: &Frame) -> (r: String)
    ensures
        r@ == line_text(iface@, ts, f@),
{
    let secs = text::number_string(ts.as_secs(), 10);
    let micros = text::padded_string(ts.subsec_micros() as u64, 10, 6);
    let stamp = text::join5("(", secs.as_str(), ".", micros.as_str(), ")");
    let id = text::number_string(f.id as u64, 16);
    let hex = hexcodec::encode_upper(&f.data);
    let field = if f.fd {
        let flags = text::padded_string(if f.brs { 1 } else { 0 }, 16, 2);
        text::join4(id.as_str(), "##", flags.as_str(), hex.as_str())
    } else {
        text::join3(id.as_str(), "#", hex.as_str())
    };
    text::join5(stamp.as_str(), " ", iface, " ", field.as_str())
}

// ---------------------------------------------------------------------------
// Replay
// ---------------------------------------------------------------------------

/// What a log line comes to in a replay: nothing for a blank line, a comment or a line
/// that cannot be read.
pub open spec fn replayed(s: Seq<char>) -> Option<(Duration, FrameView)> {
    let line = text::trimmed(s);
    if line.len() == 0 || line[0] == '#' {
        None
    } else {
        match line_of(line) {
            Ok(entry) => Some(entry),
            Err(_) => None,
        }
    }
}

/// Goes through the lines of a log and says when each frame is due.
#[derive(Debug, Clone, Copy)]
pub struct Replay {
    /// Time of the first frame, once there was one.
    pub start: Option<Duration>,
}

impl Replay {
    /// The start, if there is one, is a proper span of time.
    pub open spec fn wf(&self) -> bool {
        self.start matches Some(t) ==> t.wf()
    }

    /// A replay that has seen no frame.
    pub fn new() -> (r: Replay)
        ensures
            r.wf(),
            r.start is None,
    {
        Replay { start: None }
    }

    /// Takes the next line. A frame comes with the time by which it follows the first
    /// frame of the log: none for the first frame itself, and zero for a frame that is
    /// older than the first.
    pub fn next(&mut self, line: &str) -> (r: Option<(Option<Duration>, Frame)>)
        requires
            old(self).wf(),
        ensures
            final(self).wf(),
            match replayed(line@) {
                None => r is None && *final(self) == *old(self),
                Some((ts, f)) => {
                    &&& r matches Some((delay, g))
                    &&& g@ == f
                    &&& match old(self).start {
                        None => delay is None && final(self).start == Some(ts),
                        Some(t0) => {
                            &&& *final(self) == *old(self)
                            &&& delay matches Some(d)
                            &&& d.wf()
                            &&& d@ == (if ts@ >= t0@ { ts@ - t0@ } else { 0 })
                        },
                    }
                },
            },
    {
        let chars = text::chars_of(line);
        let trimmed = text::trim(&chars);
        if trimmed.len() == 0 || trimmed[0] == '#' {
            return None;
        }
        let t = text::string_of(trimmed);
        match parse_line(t.as_str()) {
            Err(_) => None,
            Ok((ts, f)) => match self.start {
                None => {
                    self.start = Some(ts);
                    Some((None, f))
                },
                Some(t0) => Some((Some(ts.saturating_sub(t0)), f)),
            },
        }
    }
}

// ---------------------------------------------------------------------------
// Laws
// ---------------------------------------------------------------------------

/// What a log keeps of a frame. Of a CAN FD frame the identifier, the bit rate switch and
/// the data; of any other frame the identifier and the data, and that it is in extended
/// format where the identifier needs it.
pub open spec fn recorded(f: FrameView) -> FrameView {
    if f.fd {
        FrameView { fd: true, brs: f.brs, ..frame::plain_frame(f.id, f.data) }
    } else {
        FrameView { ext: f.id > 0x7FF, ..frame::plain_frame(f.id, f.data) }
    }
}

/// Whether text is a field: not empty and without white space.
pub open spec fn is_field(s: Seq<char>) -> bool {
    s.len() > 0 && forall|i: int| 0 <= i < s.len() ==> !text::is_space(#[trigger] s[i])
}

proof fn lemma_words_of_field(w: Seq<char>, r: Seq<char>)
    requires
        is_field(w),
        r.len() == 0 || text::is_space(r[0]),
    ensures
        text::words(w + r) == seq![w] + text::words(r),
{
    text::words_in_front(w, r);
}

proof fn lemma_leading_blank(r: Seq<char>)
    ensures
        text::words(" "@ + r) == text::words(r),
{
    reveal_strlit(" ");
    assert(" "@ + r =~= seq![' '] + r);
    text::leading_white_space_does_not_count(' ', r);
}

proof fn lemma_three_fields(a: Seq<char>, b: Seq<char>, c: Seq<char>)
    requires
        is_field(a),
        is_field(b),
        is_field(c),
    ensures
        text::words(a + " "@ + b + " "@ + c) == seq![a, b, c],
{
    reveal_strlit(" ");
    let tail = b + (" "@ + c);
    assert(a + " "@ + b + " "@ + c =~= a + (" "@ + tail));
    lemma_words_of_field(a, " "@ + tail);
    lemma_leading_blank(tail);
    lemma_words_of_field(b, " "@ + c);
    lemma_leading_blank(c);
    assert(c =~= c + Seq::empty());
    lemma_words_of_field(c, Seq::empty());
    assert(text::words(Seq::empty()) =~= Seq::empty());
    assert(seq![a] + (seq![b] + (seq![c] + Seq::empty())) =~= seq![a, b, c]);
}

/// Hexadecimal digits are neither white space nor punctuation.
proof fn lemma_digit_is_plain(s: Seq<char>)
    requires
        text::is_number(s, 16),
    ensures
        forall|i: int|
            0 <= i < s.len() ==> !text::is_space(#[trigger] s[i]) && s[i] != '#' && s[i] != '.',
{
    assert forall|i: int| 0 <= i < s.len() implies !text::is_space(#[trigger] s[i]) && s[i] != '#'
        && s[i] != '.' by {
        assert(text::digit_value(s[i]) < 16);
    }
}

proof fn lemma_decimal_is_hex(s: Seq<char>)
    requires
        text::is_number(s, 10),
    ensures
        text::is_number(s, 16),
{
    assert forall|i: int| 0 <= i < s.len() implies #[trigger] text::digit_value(s[i]) < 16 by {
        assert(text::digit_value(s[i]) < 10);
    }
}

proof fn lemma_first_at(a: Seq<char>, b: Seq<char>, c: char)
    requires
        forall|i: int| 0 <= i < a.len() ==> a[i] != c,
        b.len() > 0,
        b[0] == c,
    ensures
        (a + b).index_of_first(c) == Some(a.len() as int),
{
    text::first_place(a, b, c);
}

proof fn lemma_text_len(n: nat, k: nat)
    requires
        k > 0,
        n < ten_to(k),
    ensures
        text::number_text(n, 10).len() <= k,
    decreases k,
{
    if n >= 10 {
        if k == 1 {
            reveal_with_fuel(ten_to, 2);
        } else {
            lemma_text_len(n / 10, (k - 1) as nat);
        }
    }
}

proof fn lemma_stamp(ts: Duration)
    requires
        ts.wf(),
    ensures
        is_field(stamp_text(ts)),
        stamp_text(ts)[0] == '(',
        stamp_text(ts).last() == ')',
        timestamp_of(stamp_text(ts).subrange(1, stamp_text(ts).len() - 1)) == Ok::<
            Duration,
            ErrorView,
        >(Duration { secs: ts.secs, nanos: (ts.nanos / 1000 * 1000) as u32 }),
{
    reveal_strlit("(");
    reveal_strlit(")");
    reveal_strlit(".");
    let micros = (ts.nanos / 1000) as nat;
    let a = text::number_text(ts.secs as nat, 10);
    let b = text::padded_text(micros, 10, 6);
    let s = stamp_text(ts);
    let inner = s.subrange(1, s.len() - 1);
    text::number_text_reads_back(ts.secs as nat, 10, 6, u64::MAX as nat);
    text::number_text_reads_back(micros, 10, 6, u64::MAX as nat);
    reveal_with_fuel(ten_to, 7);
    assert(micros < ten_to(6));
    lemma_text_len(micros, 6);
    assert(b.len() == 6);
    lemma_decimal_is_hex(a);
    lemma_decimal_is_hex(b);
    lemma_digit_is_plain(a);
    lemma_digit_is_plain(b);
    assert(inner =~= a + ("."@ + b));
    lemma_first_at(a, "."@ + b, '.');
    assert(inner.take(a.len() as int) =~= a);
    assert(inner.skip(a.len() as int + 1) =~= b);
    assert(six_places(b) =~= b);
    assert forall|i: int| 0 <= i < s.len() implies !text::is_space(#[trigger] s[i]) by {
        if 1 <= i < 1 + a.len() {
            assert(s[i] == a[i - 1]);
        } else if 2 + a.len() <= i < s.len() - 1 {
            assert(s[i] == b[i - 2 - a.len()]);
        }
    }
}

proof fn lemma_no_double_hash(a: Seq<char>, b: Seq<char>, from: int)
    requires
        0 <= from,
        forall|i: int| 0 <= i < a.len() ==> a[i] != '#',
        forall|i: int| 0 <= i < b.len() ==> b[i] != '#',
    ensures
        double_hash(a + seq!['#'] + b, from) is None,
    decreases a.len() + 1 + b.len() - from,
{
    let s = a + seq!['#'] + b;
    if from + 1 < s.len() {
        if from + 1 < a.len() {
            assert(s[from] == a[from]);
        } else if from < a.len() {
            assert(s[from] == a[from]);
        } else {
            assert(s[from + 1] == b[from - a.len()]);
        }
        lemma_no_double_hash(a, b, from + 1);
    }
}

proof fn lemma_double_hash_at(a: Seq<char>, b: Seq<char>, from: int)
    requires
        0 <= from <= a.len(),
        forall|i: int| 0 <= i < a.len() ==> a[i] != '#',
    ensures
        double_hash(a + seq!['#', '#'] + b, from) == Some(a.len() as int),
    decreases a.len() - from,
{
    let s = a + seq!['#', '#'] + b;
    if from < a.len() {
        assert(s[from] == a[from]);
        lemma_double_hash_at(a, b, from + 1);
    } else {
        assert(s[from] == '#' && s[from + 1] == '#');
    }
}

proof fn lemma_flags(brs: bool)
    ensures
        ({
            let t = text::padded_text(if brs { 1 } else { 0 }, 16, 2);
            &&& t.len() == 2
            &&& text::is_number(t, 16)
            &&& hexcodec::hex_bytes(t) matches Some(v) && v.len() == 1 && (v[0] % 2 == 1) == brs
        }),
{
    let n: nat = if brs { 1 } else { 0 };
    let t = text::padded_text(n, 16, 2);
    assert(text::number_text(n, 16).len() == 1);
    assert(t =~= seq!['0', text::digit_char(n)]);
    text::number_text_reads_back(n, 16, 2, 1);
    assert(hexcodec::hex_bytes(t)->0[0] == n);
}

proof fn lemma_frame_field(f: FrameView)
    ensures
        is_field(frame_text(f)),
        frame_of(frame_text(f)) == Ok::<FrameView, ErrorView>(recorded(f)),
{
    reveal_strlit("#");
    reveal_strlit("##");
    let id = text::number_text(f.id as nat, 16);
    let hex = hexcodec::hex_upper(f.data);
    let s = frame_text(f);
    text::number_text_reads_back(f.id as nat, 16, 0, u32::MAX as nat);
    hexcodec::hex_round_trip(f.data);
    lemma_digit_is_plain(id);
    lemma_digit_is_plain(hex);
    if f.fd {
        lemma_flags(f.brs);
        let flags = text::padded_text(if f.brs { 1 } else { 0 }, 16, 2);
        lemma_digit_is_plain(flags);
        let rest = flags + hex;
        assert("##"@ =~= seq!['#', '#']);
        assert(s =~= id + seq!['#', '#'] + rest);
        lemma_double_hash_at(id, rest, 0);
        assert(s.take(id.len() as int) =~= id);
        assert(s.skip(id.len() as int + 2) =~= rest);
        assert(rest.take(2) =~= flags);
        assert(rest.skip(2) =~= hex);
        assert forall|i: int| 0 <= i < s.len() implies !text::is_space(#[trigger] s[i]) by {
            if i < id.len() {
                assert(s[i] == id[i]);
            } else if id.len() + 2 <= i < id.len() + 4 {
                assert(s[i] == flags[i - id.len() - 2]);
            } else if id.len() + 4 <= i {
                assert(s[i] == hex[i - id.len() - 4]);
            }
        }
    } else {
        assert("#"@ =~= seq!['#']);
        assert(s =~= id + seq!['#'] + hex);
        lemma_no_double_hash(id, hex, 0);
        assert(s =~= id + (seq!['#'] + hex));
        lemma_first_at(id, seq!['#'] + hex, '#');
        assert(s.take(id.len() as int) =~= id);
        assert(s.skip(id.len() as int + 1) =~= hex);
        assert forall|i: int| 0 <= i < s.len() implies !text::is_space(#[trigger] s[i]) by {
            if i < id.len() {
                assert(s[i] == id[i]);
            } else if id.len() < i {
                assert(s[i] == hex[i - id.len() - 1]);
            }
        }
    }
}

/// A line that was written reads back: the time to the microsecond, and of the frame what
/// a log keeps. The interface label must be a field of its own.
pub proof fn written_line_reads_back(iface: Seq<char>, ts: Duration, f: FrameView)
    requires
        is_field(iface),
        ts.wf(),
    ensures
        line_of(line_text(iface, ts, f)) == Ok::<(Duration, FrameView), ErrorView>(
            (
                Duration { secs: ts.secs, nanos: (ts.nanos / 1000 * 1000) as u32 },
                recorded(f),
            ),
        ),
{
    lemma_stamp(ts);
    lemma_frame_field(f);
    lemma_three_fields(stamp_text(ts), iface, frame_text(f));
}

/// A log keeps a classic data frame whole where the extended format is used exactly for
/// identifiers that need it, and a CAN FD frame whole where it is in standard format and
/// has no error state indicator.
pub proof fn log_keeps_plain_frames(f: FrameView)
    requires
        f.valid(),
        !f.rtr && !f.xl && !f.esi,
        f.sdt == 0 && f.vcid == 0 && f.af == 0 && !f.sec,
        if f.fd { !f.ext } else { f.ext == (f.id > 0x7FF) },
    ensures
        recorded(f) == f,
{
}

/// The frame field of a log, read as it is written: an identifier in hexadecimal, one `#`
/// and the data of a classic frame, or two and the flags and the data of a CAN FD frame. A
/// classic frame is in extended format exactly where the identifier has more than 11 bits;
/// the lowest bit of the flags is the bit rate switch, and the others do not count.
pub proof fn frame_fields_are_read(t: Seq<char>, id: u32, flags: u8, data: Seq<u8>)
    requires
        text::is_number(t, 16),
        text::parse_number(t, 16, 0xFFFF_FFFF) == Some(id as nat),
    ensures
        frame_of(t + seq!['#'] + hexcodec::hex_upper(data)) == Ok::<FrameView, ErrorView>(
            FrameView { ext: id >= 0x800, ..frame::plain_frame(id, data) },
        ),
        frame_of(
            t + seq!['#', '#'] + hexcodec::hex_upper(seq![flags]) + hexcodec::hex_upper(data),
        ) == Ok::<FrameView, ErrorView>(
            FrameView { fd: true, brs: flags % 2 == 1, ..frame::plain_frame(id, data) },
        ),
{
    let hex = hexcodec::hex_upper(data);
    let mark = hexcodec::hex_upper(seq![flags]);
    hexcodec::hex_round_trip(data);
    hexcodec::hex_round_trip(seq![flags]);
    lemma_digit_is_plain(t);
    lemma_digit_is_plain(hex);
    lemma_digit_is_plain(mark);
    let s = t + seq!['#'] + hex;
    lemma_no_double_hash(t, hex, 0);
    assert(s =~= t + (seq!['#'] + hex));
    lemma_first_at(t, seq!['#'] + hex, '#');
    assert(s.take(t.len() as int) =~= t);
    assert(s.skip(t.len() as int + 1) =~= hex);
    let u = t + seq!['#', '#'] + mark + hex;
    let rest = mark + hex;
    assert(u =~= t + seq!['#', '#'] + rest);
    lemma_double_hash_at(t, rest, 0);
    assert(u.take(t.len() as int) =~= t);
    assert(u.skip(t.len() as int + 2) =~= rest);
    assert(rest.take(2) =~= mark);
    assert(rest.skip(2) =~= hex);
    assert(hexcodec::hex_bytes(mark)->0[0] == flags);
}

proof fn lemma_zeros_behind(b: Seq<char>, n: nat)
    ensures
        text::number_value(b + Seq::new(n, |i: int| '0'), 10) == text::number_value(b, 10)
            * vstd::arithmetic::power::pow(10, n),
    decreases n,
{
    let s = b + Seq::new(n, |i: int| '0');
    vstd::arithmetic::power::lemma_pow0(10);
    if n == 0 {
        assert(s =~= b);
    } else {
        let m = (n - 1) as nat;
        lemma_zeros_behind(b, m);
        assert(s.drop_last() =~= b + Seq::new(m, |i: int| '0'));
        assert(s.last() == '0');
        reveal(vstd::arithmetic::power::pow);
        let v = text::number_value(b, 10) as int;
        let p = vstd::arithmetic::power::pow(10, m);
        assert((v * p) * 10 == v * (10 * p)) by (nonlinear_arith);
    }
}

/// The fraction of a timestamp is a fraction: with `k` digits it counts that many decimal
/// places of a second, and beyond six places nothing more. Without a point the timestamp
/// is whole seconds.
pub proof fn fractions_of_a_second(a: Seq<char>, b: Seq<char>, secs: u64)
    requires
        text::is_number(a, 10),
        text::parse_number(a, 10, u64::MAX as nat) == Some(secs as nat),
        text::is_number(b, 10),
    ensures
        timestamp_of(a) == Ok::<Duration, ErrorView>(Duration { secs, nanos: 0 }),
        b.len() <= 6 ==> (timestamp_of(a + seq!['.'] + b) matches Ok(t) && t.secs == secs && t.nanos
            * vstd::arithmetic::power::pow(10, b.len()) == text::number_value(b, 10)
            * 1_000_000_000),
        b.len() > 6 ==> timestamp_of(a + seq!['.'] + b) == timestamp_of(a + seq!['.'] + b.take(6)),
        b.len() > 6 ==> (timestamp_of(a + seq!['.'] + b) matches Ok(t) && t.secs == secs && t.nanos
            == text::number_value(b.take(6), 10) * 1000),
{
    lemma_decimal_is_hex(a);
    lemma_digit_is_plain(a);
    a.index_of_first_ensures('.');
    if a.index_of_first('.') is Some {
        let i = a.index_of_first('.')->0;
        assert(a[i] == '.');
    }
    lemma_fraction(a, b, secs);
    if b.len() > 6 {
        let c = b.take(6);
        assert forall|i: int| 0 <= i < c.len() implies #[trigger] text::digit_value(c[i]) < 10 by {
            assert(text::digit_value(b[i]) < 10);
        }
        lemma_fraction(a, c, secs);
        assert(six_places(b) =~= c);
        assert(six_places(c) =~= c);
    } else {
        let n = (6 - b.len()) as nat;
        let p = six_places(b);
        assert(p =~= b + Seq::new(n, |i: int| '0'));
        lemma_zeros_behind(b, n);
        vstd::arithmetic::power::lemma_pow_adds(10, n, b.len());
        assert(n + b.len() == 6);
        assert(vstd::arithmetic::power::pow(10, 6) == 1_000_000) by {
            reveal_with_fuel(vstd::arithmetic::power::pow, 7);
        }
        let v = text::number_value(b, 10) as int;
        let x = vstd::arithmetic::power::pow(10, n);
        let y = vstd::arithmetic::power::pow(10, b.len());
        assert(((v * x) * 1000) * y == v * 1_000_000_000) by (nonlinear_arith)
            requires
                x * y == 1_000_000,
        ;
    }
}

proof fn lemma_fraction(a: Seq<char>, b: Seq<char>, secs: u64)
    requires
        text::is_number(a, 10),
        text::parse_number(a, 10, u64::MAX as nat) == Some(secs as nat),
        text::is_number(b, 10),
    ensures
        timestamp_of(a + seq!['.'] + b) == Ok::<Duration, ErrorView>(
            Duration { secs, nanos: (text::number_value(six_places(b), 10) * 1000) as u32 },
        ),
        text::number_value(six_places(b), 10) < 1_000_000,
{
    let s = a + seq!['.'] + b;
    let p = six_places(b);
    lemma_decimal_is_hex(a);
    lemma_digit_is_plain(a);
    assert(s =~= a + (seq!['.'] + b));
    lemma_first_at(a, seq!['.'] + b, '.');
    assert(s.take(a.len() as int) =~= a);
    assert(s.skip(a.len() as int + 1) =~= b);
    assert forall|i: int| 0 <= i < p.len() implies #[trigger] text::digit_value(p[i]) < 10 by {
        if i < b.len() {
            assert(text::digit_value(b[i]) < 10);
        }
    }
    lemma_value_below(p);
    reveal_with_fuel(ten_to, 7);
    assert(ten_to(6) == 1_000_000);
    assert(text::digit_value(p[0]) < 10);
    assert(text::without_plus(p) == p);
}

/// A line of a log is three fields: the time in brackets, the interface, and the frame. The
/// time has whole seconds in front of a point and six digits of microseconds behind it. The
/// frame has the identifier in hexadecimal, and its data behind one `#`, or behind two and
/// the flags `00` or `01` on CAN FD.
pub proof fn fields_of_a_line(iface: Seq<char>, ts: Duration, f: FrameView)
    requires
        is_field(iface),
        ts.wf(),
    ensures
        ({
            let fields = text::words(line_text(iface, ts, f));
            let stamp = fields[0];
            let id = text::number_text(f.id as nat, 16);
            let secs = text::number_text(ts.secs as nat, 10);
            &&& fields.len() == 3
            &&& fields[1] == iface
            &&& stamp.len() == secs.len() + 9
            &&& stamp[0] == '(' && stamp.last() == ')'
            &&& stamp.subrange(1, 1 + secs.len() as int) == secs
            &&& stamp[1 + secs.len() as int] == '.'
            &&& text::parse_number(
                stamp.subrange(2 + secs.len() as int, 8 + secs.len() as int),
                10,
                999_999,
            ) == Some((ts.nanos / 1000) as nat)
            &&& fields[2].take(id.len() as int) == id
            &&& !f.fd ==> fields[2].skip(id.len() as int) == seq!['#'] + hexcodec::hex_upper(f.data)
            &&& f.fd ==> fields[2].skip(id.len() as int) == seq!['#', '#', '0', if f.brs {
                '1'
            } else {
                '0'
            }] + hexcodec::hex_upper(f.data)
        }),
{
    lemma_stamp(ts);
    lemma_frame_field(f);
    lemma_three_fields(stamp_text(ts), iface, frame_text(f));
    reveal_strlit("(");
    reveal_strlit(")");
    reveal_strlit(".");
    reveal_strlit("#");
    reveal_strlit("##");
    let micros = (ts.nanos / 1000) as nat;
    let a = text::number_text(ts.secs as nat, 10);
    let b = text::padded_text(micros, 10, 6);
    let s = stamp_text(ts);
    text::number_text_reads_back(micros, 10, 6, 999_999);
    reveal_with_fuel(ten_to, 7);
    assert(micros < ten_to(6));
    lemma_text_len(micros, 6);
    assert(b.len() == 6);
    assert(s.subrange(1, 1 + a.len() as int) =~= a);
    assert(s.subrange(2 + a.len() as int, 8 + a.len() as int) =~= b);
    let id = text::number_text(f.id as nat, 16);
    let t = frame_text(f);
    assert(t.take(id.len() as int) =~= id);
    if f.fd {
        let n: nat = if f.brs { 1 } else { 0 };
        let flags = text::padded_text(n, 16, 2);
        assert(text::number_text(n, 16).len() == 1);
        assert(flags =~= seq!['0', if f.brs { '1' } else { '0' }]);
        assert(t.skip(id.len() as int) =~= seq!['#', '#', '0', if f.brs { '1' } else { '0' }]
            + hexcodec::hex_upper(f.data));
    } else {
        assert(t.skip(id.len() as int) =~= seq!['#'] + hexcodec::hex_upper(f.data));
    }
}

/// A replay passes over blank lines, comments and lines that cannot be read, and takes every
/// other line as it reads without white space at its ends.
pub proof fn lines_of_a_replay(s: Seq<char>)
    ensures
        text::trimmed(s).len() == 0 ==> replayed(s) is None,
        text::trimmed(s).len() > 0 && text::trimmed(s)[0] == '#' ==> replayed(s) is None,
        text::trimmed(s).len() > 0 && text::trimmed(s)[0] != '#' ==> match line_of(
            text::trimmed(s),
        ) {
            Ok(entry) => replayed(s) == Some(entry),
            Err(_) => replayed(s) is None,
        },
{
}

/// A line is refused where it does not have three fields, where its time is not in brackets,
/// where its time is no number, or where its frame is none.
pub proof fn lines_that_are_refused(s: Seq<char>)
    ensures
        text::words(s).len() != 3 ==> line_of(s) is Err,
        text::words(s).len() == 3 && (text::words(s)[0][0] != '(' || text::words(s)[0].last()
            != ')') ==> line_of(s) is Err,
        text::words(s).len() == 3 && frame_of(text::words(s)[2]) is Err ==> line_of(s) is Err,
        line_of(s) matches Ok((ts, f)) ==> frame_of(text::words(s)[2]) == Ok::<
            FrameView,
            ErrorView,
        >(f) && timestamp_of(
            text::words(s)[0].subrange(1, text::words(s)[0].len() - 1),
        ) == Ok::<Duration, ErrorView>(ts),
{
}

/// A field without a `#` is no frame, nor is one whose identifier, flags or data are not in
/// hexadecimal.
pub proof fn fields_that_are_no_frame(t: Seq<char>, data: Seq<char>)
    requires
        forall|i: int| 0 <= i < t.len() ==> t[i] != '#',
        forall|i: int| 0 <= i < data.len() ==> data[i] != '#',
    ensures
        frame_of(t) is Err,
        text::parse_number(t, 16, 0xFFFF_FFFF) is None ==> frame_of(t + seq!['#'] + data) is Err,
        hexcodec::hex_bytes(data) is None ==> frame_of(t + seq!['#'] + data) is Err,
        text::parse_number(t, 16, 0xFFFF_FFFF) is None ==> frame_of(t + seq!['#', '#'] + data)
            is Err,
        data.len() < 2 ==> frame_of(t + seq!['#', '#'] + data) is Err,
        data.len() >= 2 && hexcodec::hex_bytes(data.take(2)) is None ==> frame_of(
            t + seq!['#', '#'] + data,
        ) is Err,
        data.len() >= 2 && hexcodec::hex_bytes(data.skip(2)) is None ==> frame_of(
            t + seq!['#', '#'] + data,
        ) is Err,
{
    let u = t + seq!['#', '#'] + data;
    lemma_double_hash_at(t, data, 0);
    assert(u.take(t.len() as int) =~= t);
    assert(u.skip(t.len() as int + 2) =~= data);
    lemma_no_hash(t, 0);
    t.index_of_first_ensures('#');
    if t.index_of_first('#') is Some {
        let i = t.index_of_first('#')->0;
        assert(t[i] == '#');
    }
    let s = t + seq!['#'] + data;
    lemma_no_double_hash(t, data, 0);
    assert(s =~= t + (seq!['#'] + data));
    lemma_first_at(t, seq!['#'] + data, '#');
    assert(s.take(t.len() as int) =~= t);
    assert(s.skip(t.len() as int + 1) =~= data);
}

proof fn lemma_no_hash(t: Seq<char>, from: int)
    requires
        0 <= from,
        forall|i: int| 0 <= i < t.len() ==> t[i] != '#',
    ensures
        double_hash(t, from) is None,
    decreases t.len() - from,
{
    if from + 1 < t.len() {
        assert(t[from] != '#');
        lemma_no_hash(t, from + 1);
    }
}

} // verus!
