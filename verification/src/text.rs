//! Characters, numbers and fields of text lines.
//!
//! Text is handled as a sequence of characters. The spec functions say what a
//! piece of text means; the executable functions compute exactly that.
use vstd::prelude::*;
use vstd::slice::slice_subrange;

verus! {

// ---------------------------------------------------------------------------
// Strings and character vectors
// ---------------------------------------------------------------------------

/// `String::push` appends one character at the end of the string.
pub assume_specification[ String::push ](s: &mut String, c: char)
    ensures
        final(s)@ == old(s)@.push(c),
;

/// The characters of `s`, in order.
pub fn chars_of(s: &str) -> (r: Vec<char>)
    ensures
        r@ == s@,
{
    let mut out: Vec<char> = Vec::new();
    for c in it: s.chars()
        invariant
            out@ == it.seq().take(it.index() as int),
            it.seq() == s@,
    {
        out.push(c);
    }
    out
}

/// The string made of the characters `cs`, in order.
pub fn string_of(cs: &[char]) -> (r: String)
    ensures
        r@ == cs@,
{
    let mut out = String::new();
    let mut i: usize = 0;
    while i < cs.len()
        invariant
            i <= cs@.len(),
            out@ == cs@.take(i as int),
        decreases cs@.len() - i,
    {
        out.push(cs[i]);
        i += 1;
    }
    assert(cs@.take(i as int) =~= cs@);
    out
}

/// Whether two strings hold the same characters.
pub fn same_text(a: &str, b: &str) -> (r: bool)
    ensures
        r == (a@ == b@),
{
    a.to_owned() == b.to_owned()
}

/// `a` followed by `b`.
pub fn join2(a: &str, b: &str) -> (r: String)
    ensures
        r@ == a@ + b@,
{
    let mut s = a.to_owned();
    s.append(b);
    s
}

/// `a`, `b` and `c` in a row.
pub fn join3(a: &str, b: &str, c: &str) -> (r: String)
    ensures
        r@ == a@ + b@ + c@,
{
    let mut s = a.to_owned();
    s.append(b);
    s.append(c);
    s
}

/// `a`, `b`, `c` and `d` in a row.
pub fn join4(a: &str, b: &str, c: &str, d: &str) -> (r: String)
    ensures
        r@ == a@ + b@ + c@ + d@,
{
    let mut s = a.to_owned();
    s.append(b);
    s.append(c);
    s.append(d);
    s
}

/// `a`, `b`, `c`, `d` and `e` in a row.
pub fn join5(a: &str, b: &str, c: &str, d: &str, e: &str) -> (r: String)
    ensures
        r@ == a@ + b@ + c@ + d@ + e@,
{
    let mut s = a.to_owned();
    s.append(b);
    s.append(c);
    s.append(d);
    s.append(e);
    s
}

/// How a string reads in Rust's `Debug` notation: quoted, with escapes.
pub uninterp spec fn debug_text(s: Seq<char>) -> Seq<char>;

/// Calls `<str as std::fmt::Debug>::fmt`. The contract only names the result, which
/// depends on the characters of `s` alone.
#[verifier::external_body]
pub(crate) fn debug_string(s: &str) -> (r: String)
    ensures
        r@ == debug_text(s@),
{
    format!("{:?}", s)
}

/// How a character reads in Rust's `Debug` notation: quoted, with escapes.
pub uninterp spec fn debug_char_text(c: char) -> Seq<char>;

/// Calls `<char as std::fmt::Debug>::fmt`. The contract only names the result, which
/// depends on `c` alone.
#[verifier::external_body]
pub(crate) fn debug_char_string(c: char) -> (r: String)
    ensures
        r@ == debug_char_text(c),
{
    format!("{:?}", c)
}

/// How an optional character reads in Rust's `Debug` notation.
pub open spec fn debug_option_text(c: Option<char>) -> Seq<char> {
    match c {
        Some(c) => "Some("@ + debug_char_text(c) + ")"@,
        None => "None"@,
    }
}

/// How an optional character reads in Rust's `Debug` notation.
pub fn debug_option_string(c: Option<char>) -> (r: String)
    ensures
        r@ == debug_option_text(c),
{
    match c {
        Some(c) => {
            let shown = debug_char_string(c);
            join3("Some(", shown.as_str(), ")")
        },
        None => "None".to_owned(),
    }
}

// ---------------------------------------------------------------------------
// Searching and trimming
// ---------------------------------------------------------------------------

/// The Unicode `White_Space` property.
pub open spec fn is_space(c: char) -> bool {
    ||| 0x09 <= c as u32 <= 0x0D
    ||| c as u32 == 0x20
    ||| c as u32 == 0x85
    ||| c as u32 == 0xA0
    ||| c as u32 == 0x1680
    ||| 0x2000 <= c as u32 <= 0x200A
    ||| c as u32 == 0x2028
    ||| c as u32 == 0x2029
    ||| c as u32 == 0x202F
    ||| c as u32 == 0x205F
    ||| c as u32 == 0x3000
}

/// Whether `c` is white space.
pub fn space(c: char) -> (r: bool)
    ensures
        r == is_space(c),
{
    let u: u32 = c as u32;
    (0x09 <= u && u <= 0x0D) || u == 0x20 || u == 0x85 || u == 0xA0 || u == 0x1680 || (0x2000 <= u
        && u <= 0x200A) || u == 0x2028 || u == 0x2029 || u == 0x202F || u == 0x205F || u == 0x3000
}

/// Position of the first `c` in `cs`.
pub fn find(cs: &[char], c: char) -> (r: Option<usize>)
    ensures
        match r {
            Some(i) => cs@.index_of_first(c) == Some(i as int),
            None => cs@.index_of_first(c) is None,
        },
        r matches Some(i) ==> i < cs@.len() && cs@[i as int] == c,
{
    proof {
        cs@.index_of_first_ensures(c);
    }
    let mut i: usize = 0;
    while i < cs.len()
        invariant
            i <= cs@.len(),
            forall|j: int| 0 <= j < i ==> cs@[j] != c,
            match cs@.index_of_first(c) {
                Some(index) => {
                    &&& 0 <= index < cs@.len()
                    &&& cs@[index] == c
                    &&& forall|j: int| 0 <= j < index < cs@.len() ==> cs@[j] != c
                },
                None => !cs@.contains(c),
            },
        decreases cs@.len() - i,
    {
        if cs[i] == c {
            return Some(i);
        }
        i += 1;
    }
    None
}

/// Whether `s` begins with `prefix`.
pub open spec fn has_prefix(s: Seq<char>, prefix: Seq<char>) -> bool {
    prefix.len() <= s.len() && s.take(prefix.len() as int) == prefix
}

/// Whether `cs` begins with the characters of `prefix`.
pub fn starts_with(cs: &[char], prefix: &str) -> (r: bool)
    ensures
        r == has_prefix(cs@, prefix@),
{
    let p = chars_of(prefix);
    if p.len() > cs.len() {
        return false;
    }
    let mut i: usize = 0;
    while i < p.len()
        invariant
            i <= p@.len() <= cs@.len(),
            p@ == prefix@,
            forall|j: int| 0 <= j < i ==> cs@[j] == p@[j],
        decreases p@.len() - i,
    {
        if cs[i] != p[i] {
            assert(cs@.take(p@.len() as int)[i as int] != p@[i as int]);
            return false;
        }
        i += 1;
    }
    assert(cs@.take(p@.len() as int) =~= p@);
    true
}

/// `s` without its leading white space.
pub open spec fn trim_start(s: Seq<char>) -> Seq<char>
    decreases s.len(),
{
    if s.len() > 0 && is_space(s[0]) {
        trim_start(s.skip(1))
    } else {
        s
    }
}

/// `s` without its trailing white space.
pub open spec fn trim_end(s: Seq<char>) -> Seq<char>
    decreases s.len(),
{
    if s.len() > 0 && is_space(s.last()) {
        trim_end(s.drop_last())
    } else {
        s
    }
}

/// `s` without white space at either end.
pub open spec fn trimmed(s: Seq<char>) -> Seq<char> {
    trim_end(trim_start(s))
}

/// `cs` without white space at either end.
pub fn trim(cs: &[char]) -> (r: &[char])
    ensures
        r@ == trimmed(cs@),
        r@.len() <= cs@.len(),
{
    let n: usize = cs.len();
    let mut i: usize = 0;
    assert(cs@.skip(0) =~= cs@);
    while i < n && space(cs[i])
        invariant
            i <= n == cs@.len(),
            trim_start(cs@) == trim_start(cs@.skip(i as int)),
        decreases n - i,
    {
        assert(cs@.skip(i as int).skip(1) =~= cs@.skip(i + 1));
        i += 1;
    }
    let mut j: usize = n;
    let ghost t = cs@.skip(i as int);
    assert(trim_start(cs@) == t);
    assert(cs@.subrange(i as int, n as int) =~= t);
    while i < j && space(cs[j - 1])
        invariant
            i <= j <= n == cs@.len(),
            t == cs@.skip(i as int),
            trim_end(t) == trim_end(cs@.subrange(i as int, j as int)),
        decreases j - i,
    {
        assert(cs@.subrange(i as int, j as int).drop_last() =~= cs@.subrange(i as int, j - 1));
        j -= 1;
    }
    slice_subrange(cs, i, j)
}

/// `s` without its trailing `c` characters.
pub open spec fn trim_end_of(s: Seq<char>, c: char) -> Seq<char>
    decreases s.len(),
{
    if s.len() > 0 && s.last() == c {
        trim_end_of(s.drop_last(), c)
    } else {
        s
    }
}

/// `cs` without its trailing `c` characters.
pub fn trim_end_matches(cs: &[char], c: char) -> (r: &[char])
    ensures
        r@ == trim_end_of(cs@, c),
{
    let mut j: usize = cs.len();
    assert(cs@.take(j as int) =~= cs@);
    while 0 < j && cs[j - 1] == c
        invariant
            j <= cs@.len(),
            trim_end_of(cs@, c) == trim_end_of(cs@.take(j as int), c),
        decreases j,
    {
        assert(cs@.take(j as int).drop_last() =~= cs@.take(j - 1));
        j -= 1;
    }
    slice_subrange(cs, 0, j)
}

// ---------------------------------------------------------------------------
// Splitting
// ---------------------------------------------------------------------------

/// The character sequences that a vector of slices shows.
pub open spec fn pieces(v: Seq<&[char]>) -> Seq<Seq<char>> {
    Seq::new(v.len(), |i: int| v[i]@)
}

/// Length of the longest prefix of `s` without white space.
pub open spec fn word_len(s: Seq<char>) -> nat
    decreases s.len(),
{
    if s.len() > 0 && !is_space(s[0]) {
        1 + word_len(s.skip(1))
    } else {
        0
    }
}

pub proof fn lemma_word_len(s: Seq<char>)
    ensures
        word_len(s) <= s.len(),
        forall|i: int| 0 <= i < word_len(s) ==> !is_space(#[trigger] s[i]),
        word_len(s) < s.len() ==> is_space(s[word_len(s) as int]),
    decreases s.len(),
{
    if s.len() > 0 && !is_space(s[0]) {
        lemma_word_len(s.skip(1));
        assert forall|i: int| 0 <= i < word_len(s) implies !is_space(#[trigger] s[i]) by {
            if i > 0 {
                assert(s[i] == s.skip(1)[i - 1]);
            }
        }
    }
}

pub proof fn lemma_trim_start_len(s: Seq<char>)
    ensures
        trim_start(s).len() <= s.len(),
        trim_start(s).len() > 0 ==> !is_space(trim_start(s)[0]),
    decreases s.len(),
{
    if s.len() > 0 && is_space(s[0]) {
        lemma_trim_start_len(s.skip(1));
    }
}

/// The fields of `s`, which white space separates.
pub open spec fn words(s: Seq<char>) -> Seq<Seq<char>>
    decreases s.len(),
{
    proof {
        lemma_trim_start_len(s);
        lemma_word_len(trim_start(s));
    }
    let t = trim_start(s);
    if t.len() == 0 {
        Seq::empty()
    } else {
        seq![t.take(word_len(t) as int)] + words(t.skip(word_len(t) as int))
    }
}

/// The fields of `cs`, which white space separates.
pub fn split_whitespace(cs: &[char]) -> (r: Vec<&[char]>)
    ensures
        pieces(r@) == words(cs@),
{
    let mut out: Vec<&[char]> = Vec::new();
    let n: usize = cs.len();
    let mut i: usize = 0;
    assert(cs@.skip(0) =~= cs@);
    assert(pieces(out@) + words(cs@) =~= words(cs@));
    loop
        invariant
            i <= n == cs@.len(),
            pieces(out@) + words(cs@.skip(i as int)) == words(cs@),
        decreases n - i,
    {
        let ghost here = cs@.skip(i as int);
        let start: usize = i;
        while i < n && space(cs[i])
            invariant
                start <= i <= n == cs@.len(),
                trim_start(cs@.skip(start as int)) == trim_start(cs@.skip(i as int)),
            decreases n - i,
        {
            assert(cs@.skip(i as int).skip(1) =~= cs@.skip(i + 1));
            i += 1;
        }
        let begin: usize = i;
        let ghost t = cs@.skip(begin as int);
        assert(trim_start(here) == t);
        if i == n {
            assert(words(here) =~= Seq::empty());
            assert(pieces(out@) + words(here) =~= pieces(out@));
            return out;
        }
        proof {
            lemma_word_len(t);
        }
        while i < n && !space(cs[i])
            invariant
                begin <= i <= n == cs@.len(),
                t == cs@.skip(begin as int),
                word_len(t) == (i - begin) + word_len(cs@.skip(i as int)),
            decreases n - i,
        {
            assert(cs@.skip(i as int).skip(1) =~= cs@.skip(i + 1));
            i += 1;
        }
        assert(word_len(t) == i - begin);
        let ghost before = out@;
        let w: &[char] = slice_subrange(cs, begin, i);
        out.push(w);
        proof {
            assert(w@ =~= t.take(word_len(t) as int));
            assert(t.skip(word_len(t) as int) =~= cs@.skip(i as int));
            assert(pieces(out@) =~= pieces(before).push(w@));
            assert(pieces(before) + (seq![w@] + words(cs@.skip(i as int))) =~= pieces(out@) + words(
                cs@.skip(i as int),
            ));
        }
    }
}

/// The lines of `s`: the pieces between newlines, without an empty piece behind the
/// last newline.
pub open spec fn lines(s: Seq<char>) -> Seq<Seq<char>>
    decreases s.len(),
{
    proof {
        s.index_of_first_ensures('\n');
    }
    if s.len() == 0 {
        Seq::empty()
    } else {
        match s.index_of_first('\n') {
            Some(i) => seq![s.take(i)] + lines(s.skip(i + 1)),
            None => seq![s],
        }
    }
}

/// The lines of a text in front of a newline and of the text behind it are the lines of
/// both together.
pub proof fn lines_of_joined_text(s: Seq<char>, t: Seq<char>)
    ensures
        lines(s + seq!['\n'] + t) == lines(s + seq!['\n']) + lines(t),
    decreases s.len(),
{
    let front = s + seq!['\n'];
    let whole = front + t;
    front.index_of_first_ensures('\n');
    whole.index_of_first_ensures('\n');
    assert(front[s.len() as int] == '\n');
    assert(whole[s.len() as int] == '\n');
    assert(front.contains('\n'));
    assert(whole.contains('\n'));
    let i = front.index_of_first('\n')->0;
    let j = whole.index_of_first('\n')->0;
    assert(whole[i] == front[i]);
    assert(i <= s.len());
    assert(j <= s.len());
    assert(front[j] == whole[j]);
    assert(i == j);
    assert(whole.take(i) =~= front.take(i));
    if i < s.len() {
        let rest = s.skip(i + 1);
        lines_of_joined_text(rest, t);
        assert(front.skip(i + 1) =~= rest + seq!['\n']);
        assert(whole.skip(i + 1) =~= rest + seq!['\n'] + t);
        assert(lines(whole) =~= lines(front) + lines(t));
    } else {
        assert(front.skip(i + 1) =~= Seq::empty());
        assert(lines(front.skip(i + 1)) =~= Seq::empty());
        assert(whole.skip(i + 1) =~= t);
        assert(lines(whole) =~= lines(front) + lines(t));
    }
}

/// A newline at the end of a text adds no line, but behind another newline or alone a blank
/// one.
pub proof fn lines_of_ended_text(s: Seq<char>)
    ensures
        lines(s + seq!['\n']) == (if s.len() == 0 || s.last() == '\n' {
            lines(s).push(Seq::empty())
        } else {
            lines(s)
        }),
    decreases s.len(),
{
    let nl = seq!['\n'];
    let ended = s + nl;
    assert(lines(nl) =~= seq![Seq::empty()]) by {
        nl.index_of_first_ensures('\n');
        assert(nl[0] == '\n');
        assert(nl.contains('\n'));
        assert(nl.take(0) =~= Seq::empty());
        assert(nl.skip(1) =~= Seq::empty());
        assert(lines(nl.skip(1)) =~= Seq::empty());
    }
    if s.len() == 0 {
        assert(ended =~= nl);
    } else if s.last() == '\n' {
        let t = s.drop_last();
        assert(s =~= t + nl);
        lines_of_joined_text(t, nl);
        assert(lines(ended) =~= lines(s).push(Seq::empty()));
    } else {
        s.index_of_first_ensures('\n');
        ended.index_of_first_ensures('\n');
        assert(ended[s.len() as int] == '\n');
        assert(ended.contains('\n'));
        let j = ended.index_of_first('\n')->0;
        match s.index_of_first('\n') {
            Some(i) => {
                assert(ended[i] == s[i]);
                assert(j <= i);
                assert(s[j] == ended[j]);
                assert(i == j);
                let rest = s.skip(i + 1);
                lines_of_ended_text(rest);
                assert(rest.last() == s.last());
                assert(ended.take(i) =~= s.take(i));
                assert(ended.skip(i + 1) =~= rest + nl);
            },
            None => {
                if j < s.len() {
                    assert(s[j] == ended[j]);
                    assert(s.contains('\n'));
                }
                assert(ended.take(j) =~= s);
                assert(ended.skip(j + 1) =~= Seq::empty());
                assert(lines(ended.skip(j + 1)) =~= Seq::empty());
                assert(lines(ended) =~= seq![s]);
            },
        }
    }
}

/// The lines of `cs`.
pub fn split_lines(cs: &[char]) -> (r: Vec<&[char]>)
    ensures
        pieces(r@) == lines(cs@),
{
    let mut out: Vec<&[char]> = Vec::new();
    let mut rest: &[char] = cs;
    assert(pieces(out@) + lines(cs@) =~= lines(cs@));
    while rest.len() > 0
        invariant
            pieces(out@) + lines(rest@) == lines(cs@),
        decreases rest@.len(),
    {
        let ghost before = out@;
        match find(rest, '\n') {
            Some(i) => {
                let line: &[char] = slice_subrange(rest, 0, i);
                let tail: &[char] = slice_subrange(rest, i + 1, rest.len());
                out.push(line);
                proof {
                    assert(line@ =~= rest@.take(i as int));
                    assert(tail@ =~= rest@.skip(i + 1));
                    assert(pieces(out@) =~= pieces(before).push(line@));
                    assert(pieces(before) + (seq![line@] + lines(tail@)) =~= pieces(out@) + lines(
                        tail@,
                    ));
                }
                rest = tail;
            },
            None => {
                out.push(rest);
                proof {
                    assert(pieces(out@) =~= pieces(before).push(rest@));
                    assert(pieces(before) + seq![rest@] =~= pieces(out@));
                }
                return out;
            },
        }
    }
    assert(pieces(out@) + lines(rest@) =~= pieces(out@));
    out
}

/// At most `n` pieces of `s`, cut at the first `n - 1` occurrences of `c`.
pub open spec fn split_at_most(s: Seq<char>, n: nat, c: char) -> Seq<Seq<char>>
    decreases n,
{
    if n <= 1 {
        seq![s]
    } else {
        match s.index_of_first(c) {
            Some(i) => seq![s.take(i)] + split_at_most(s.skip(i + 1), (n - 1) as nat, c),
            None => seq![s],
        }
    }
}

/// At most `n` pieces of `cs`, cut at the first `n - 1` occurrences of `c`.
pub fn splitn(cs: &[char], n: usize, c: char) -> (r: Vec<&[char]>)
    requires
        n > 0,
    ensures
        pieces(r@) == split_at_most(cs@, n as nat, c),
{
    let mut out: Vec<&[char]> = Vec::new();
    let mut rest: &[char] = cs;
    let mut left: usize = n;
    assert(pieces(out@) + split_at_most(cs@, n as nat, c) =~= split_at_most(cs@, n as nat, c));
    loop
        invariant
            0 < left,
            pieces(out@) + split_at_most(rest@, left as nat, c) == split_at_most(cs@, n as nat, c),
        decreases left,
    {
        let ghost before = out@;
        let len: usize = rest.len();
        let cut: Option<usize> = if left > 1 { find(rest, c) } else { None };
        match cut {
            Some(i) => {
                let piece: &[char] = slice_subrange(rest, 0, i);
                let tail: &[char] = slice_subrange(rest, i + 1, len);
                out.push(piece);
                left -= 1;
                proof {
                    assert(piece@ =~= rest@.take(i as int));
                    assert(tail@ =~= rest@.skip(i + 1));
                    assert(pieces(out@) =~= pieces(before).push(piece@));
                    assert(pieces(before) + (seq![piece@] + split_at_most(tail@, left as nat, c))
                        =~= pieces(out@) + split_at_most(tail@, left as nat, c));
                }
                rest = tail;
            },
            None => {
                out.push(rest);
                proof {
                    assert(pieces(out@) =~= pieces(before).push(rest@));
                    assert(pieces(before) + seq![rest@] =~= pieces(out@));
                }
                return out;
            },
        }
    }
}

// ---------------------------------------------------------------------------
// Numbers
// ---------------------------------------------------------------------------

/// Value of `c` as a hexadecimal digit, or 16 where it is none.
pub open spec fn digit_value(c: char) -> nat {
    if '0' <= c && c <= '9' {
        (c as u32 - '0' as u32) as nat
    } else if 'a' <= c && c <= 'f' {
        (c as u32 - 'a' as u32 + 10) as nat
    } else if 'A' <= c && c <= 'F' {
        (c as u32 - 'A' as u32 + 10) as nat
    } else {
        16
    }
}

/// Value of `c` as a hexadecimal digit, or 16 where it is none.
pub fn digit_of(c: char) -> (r: u64)
    ensures
        r == digit_value(c),
        r <= 16,
{
    let u: u32 = c as u32;
    if '0' <= c && c <= '9' {
        (u - 48) as u64
    } else if 'a' <= c && c <= 'f' {
        (u - 87) as u64
    } else if 'A' <= c && c <= 'F' {
        (u - 55) as u64
    } else {
        16
    }
}

/// Whether `s` is made of digits below `radix`.
pub open spec fn is_number(s: Seq<char>, radix: nat) -> bool {
    forall|i: int| 0 <= i < s.len() ==> #[trigger] digit_value(s[i]) < radix
}

/// The number that the digits `s` write in base `radix`.
pub open spec fn number_value(s: Seq<char>, radix: nat) -> nat
    decreases s.len(),
{
    if s.len() == 0 {
        0
    } else {
        number_value(s.drop_last(), radix) * radix + digit_value(s.last())
    }
}

/// `s` without one leading plus sign that has something behind it.
pub open spec fn without_plus(s: Seq<char>) -> Seq<char> {
    if s.len() > 1 && s[0] == '+' { s.skip(1) } else { s }
}

/// The unsigned number that `s` writes in base `radix`: an optional plus sign and at
/// least one digit, and a value that is at most `max`.
pub open spec fn parse_number(s: Seq<char>, radix: nat, max: nat) -> Option<nat> {
    let d = without_plus(s);
    if d.len() > 0 && is_number(d, radix) && number_value(d, radix) <= max {
        Some(number_value(d, radix))
    } else {
        None
    }
}

pub proof fn lemma_number_value_monotonic(s: Seq<char>, n: int, radix: nat)
    requires
        0 <= n <= s.len(),
        radix >= 1,
    ensures
        number_value(s.take(n), radix) <= number_value(s, radix),
    decreases s.len() - n,
{
    if n < s.len() {
        lemma_number_value_monotonic(s, n + 1, radix);
        assert(s.take(n + 1).drop_last() =~= s.take(n));
        let v = number_value(s.take(n), radix);
        assert(v * radix >= v) by (nonlinear_arith)
            requires
                radix >= 1,
                v >= 0,
        ;
    } else {
        assert(s.take(n) =~= s);
    }
}

/// Reads an unsigned number, as `parse_number` says.
pub fn parse_unsigned(cs: &[char], radix: u64, max: u64) -> (r: Option<u64>)
    requires
        2 <= radix <= 16,
    ensures
        match r {
            Some(v) => parse_number(cs@, radix as nat, max as nat) == Some(v as nat),
            None => parse_number(cs@, radix as nat, max as nat) is None,
        },
        r matches Some(v) ==> v <= max,
{
    let n: usize = cs.len();
    let start: usize = if n > 1 && cs[0] == '+' { 1 } else { 0 };
    let ghost d = without_plus(cs@);
    assert(d =~= cs@.skip(start as int));
    if start == n {
        return None;
    }
    let mut v: u64 = 0;
    let mut i: usize = start;
    assert(d.take(0) =~= Seq::empty());
    while i < n
        invariant
            2 <= radix <= 16,
            start <= i <= n == cs@.len(),
            d == without_plus(cs@),
            d == cs@.skip(start as int),
            is_number(d.take(i - start), radix as nat),
            v == number_value(d.take(i - start), radix as nat),
            v <= max,
        decreases n - i,
    {
        let x: u64 = digit_of(cs[i]);
        let ghost k = i - start;
        assert(d[k] == cs@[i as int]);
        if x >= radix {
            assert(digit_value(d[k]) >= radix);
            return None;
        }
        assert(v * radix <= u64::MAX * 16) by (nonlinear_arith)
            requires
                v <= u64::MAX,
                radix <= 16,
        ;
        let w: u128 = v as u128 * radix as u128 + x as u128;
        proof {
            assert(d.take(k + 1).drop_last() =~= d.take(k));
            assert(w == number_value(d.take(k + 1), radix as nat));
        }
        if w > max as u128 {
            proof {
                lemma_number_value_monotonic(d, k + 1, radix as nat);
            }
            return None;
        }
        v = w as u64;
        proof {
            assert forall|j: int| 0 <= j < d.take(k + 1).len() implies #[trigger] digit_value(
                d.take(k + 1)[j],
            ) < radix by {
                if j < k {
                    assert(digit_value(d.take(k)[j]) < radix);
                }
            }
        }
        i += 1;
    }
    assert(d.take(n - start) =~= d);
    Some(v)
}

/// `true` or `false`.
pub open spec fn flag_text(b: bool) -> Seq<char> {
    if b { "true"@ } else { "false"@ }
}

/// `true` or `false`.
pub fn flag_string(b: bool) -> (r: String)
    ensures
        r@ == flag_text(b),
{
    if b {
        "true".to_owned()
    } else {
        "false".to_owned()
    }
}

/// Number of digits below `radix` at the front of `s`.
pub open spec fn number_len(s: Seq<char>, radix: nat) -> nat
    decreases s.len(),
{
    if s.len() > 0 && digit_value(s[0]) < radix { 1 + number_len(s.skip(1), radix) } else { 0 }
}

/// Why `s` is not an unsigned number that is at most `max`, in the words that Rust's parser
/// has for it. The first character at which reading fails decides.
pub open spec fn number_fault(s: Seq<char>, radix: nat, max: nat) -> Seq<char> {
    let d = without_plus(s);
    if s.len() == 0 {
        "cannot parse integer from empty string"@
    } else if number_value(d.take(number_len(d, radix) as int), radix) > max {
        "number too large to fit in target type"@
    } else {
        "invalid digit found in string"@
    }
}

fn count_digits(cs: &[char], radix: u64) -> (r: usize)
    ensures
        r == number_len(cs@, radix as nat) <= cs@.len(),
        is_number(cs@.take(r as int), radix as nat),
{
    let n: usize = cs.len();
    let mut i: usize = 0;
    assert(cs@.skip(0) =~= cs@);
    while i < n && digit_of(cs[i]) < radix
        invariant
            i <= n == cs@.len(),
            i + number_len(cs@.skip(i as int), radix as nat) == number_len(cs@, radix as nat),
            forall|j: int| 0 <= j < i ==> #[trigger] digit_value(cs@[j]) < radix,
        decreases n - i,
    {
        assert(cs@.skip(i as int).skip(1) =~= cs@.skip(i + 1));
        i += 1;
    }
    assert forall|j: int| 0 <= j < i implies #[trigger] digit_value(cs@.take(i as int)[j])
        < radix by {
        assert(digit_value(cs@[j]) < radix);
    }
    i
}

/// Why text is not an unsigned number, as `number_fault` says.
pub fn number_fault_string(cs: &[char], radix: u64, max: u64) -> (r: String)
    requires
        2 <= radix <= 16,
    ensures
        r@ == number_fault(cs@, radix as nat, max as nat),
{
    let n: usize = cs.len();
    if n == 0 {
        return "cannot parse integer from empty string".to_owned();
    }
    let start: usize = if n > 1 && cs[0] == '+' { 1 } else { 0 };
    let digits = slice_subrange(cs, start, n);
    assert(digits@ =~= without_plus(cs@));
    let k: usize = count_digits(digits, radix);
    let front = slice_subrange(digits, 0, k);
    assert(front@ =~= digits@.take(k as int));
    proof {
        if k > 0 {
            assert(digit_value(front@[0]) < radix);
            assert(without_plus(front@) == front@);
        }
    }
    if k > 0 && parse_unsigned(front, radix, max).is_none() {
        return "number too large to fit in target type".to_owned();
    }
    "invalid digit found in string".to_owned()
}

/// The digit character of `d`, in upper case where it is a letter.
pub open spec fn digit_char(d: nat) -> char {
    if d < 10 { (48 + d) as char } else { (55 + d) as char }
}

/// The number `n` in base `radix`, without leading zeros.
pub open spec fn number_text(n: nat, radix: nat) -> Seq<char>
    decreases n,
{
    if n < radix || radix < 2 {
        seq![digit_char(n)]
    } else {
        proof {
            vstd::arithmetic::div_mod::lemma_div_decreases(n as int, radix as int);
        }
        number_text(n / radix, radix).push(digit_char(n % radix))
    }
}

/// The number `n` in base `radix`, with zeros in front to make at least `width` digits.
pub open spec fn padded_text(n: nat, radix: nat, width: nat) -> Seq<char> {
    let t = number_text(n, radix);
    if t.len() >= width { t } else { Seq::new((width - t.len()) as nat, |i: int| '0') + t }
}

/// Digits of `n` in base `radix`, in order.
fn number_chars(n: u64, radix: u64) -> (r: Vec<char>)
    requires
        2 <= radix <= 16,
    ensures
        r@ == number_text(n as nat, radix as nat),
    decreases n,
{
    if n < radix {
        let d: u8 = n as u8;
        let c: char = if d < 10 { (48 + d) as char } else { (55 + d) as char };
        vec![c]
    } else {
        proof {
            vstd::arithmetic::div_mod::lemma_div_decreases(n as int, radix as int);
            vstd::arithmetic::div_mod::lemma_mod_bound(n as int, radix as int);
        }
        let mut out = number_chars(n / radix, radix);
        let d: u8 = (n % radix) as u8;
        let c: char = if d < 10 { (48 + d) as char } else { (55 + d) as char };
        out.push(c);
        out
    }
}

/// `n` in base `radix`, without leading zeros.
pub fn number_string(n: u64, radix: u64) -> (r: String)
    requires
        2 <= radix <= 16,
    ensures
        r@ == number_text(n as nat, radix as nat),
{
    let cs = number_chars(n, radix);
    string_of(&cs)
}

/// `n` in base `radix`, with zeros in front to make at least `width` digits.
pub fn padded_string(n: u64, radix: u64, width: usize) -> (r: String)
    requires
        2 <= radix <= 16,
    ensures
        r@ == padded_text(n as nat, radix as nat, width as nat),
{
    let cs = number_chars(n, radix);
    let mut out = String::new();
    let mut i: usize = cs.len();
    let ghost k = cs@.len();
    while i < width
        invariant
            k <= i,
            i <= width || i == k,
            out@ == Seq::new((i - k) as nat, |j: int| '0'),
        decreases width - i,
    {
        out.push('0');
        i += 1;
        assert(out@ =~= Seq::new((i - k) as nat, |j: int| '0'));
    }
    let tail = string_of(&cs);
    out.append(tail.as_str());
    assert(out@ =~= padded_text(n as nat, radix as nat, width as nat));
    out
}

/// Bytes in hexadecimal without leading zeros, with a comma and a blank between them.
pub open spec fn hex_items(data: Seq<u8>) -> Seq<char>
    decreases data.len(),
{
    if data.len() == 0 {
        Seq::empty()
    } else if data.len() == 1 {
        number_text(data[0] as nat, 16)
    } else {
        hex_items(data.drop_last()) + ", "@ + number_text(data.last() as nat, 16)
    }
}

/// A list of bytes in hexadecimal, in square brackets.
pub open spec fn hex_list_text(data: Seq<u8>) -> Seq<char> {
    "["@ + hex_items(data) + "]"@
}

/// A list of bytes in hexadecimal, in square brackets.
pub fn hex_list(data: &[u8]) -> (r: String)
    ensures
        r@ == hex_list_text(data@),
{
    let mut out = "[".to_owned();
    let mut i: usize = 0;
    assert(data@.take(0) =~= Seq::empty());
    assert(out@ =~= "["@ + Seq::empty());
    while i < data.len()
        invariant
            i <= data@.len(),
            out@ == "["@ + hex_items(data@.take(i as int)),
        decreases data@.len() - i,
    {
        let ghost before = data@.take(i as int);
        let item = number_string(data[i] as u64, 16);
        if i > 0 {
            out.append(", ");
        }
        out.append(item.as_str());
        proof {
            let now = data@.take(i + 1);
            assert(now.drop_last() =~= before);
            if i == 0 {
                assert(out@ =~= "["@ + hex_items(now));
            } else {
                assert(out@ =~= "["@ + (hex_items(before) + ", "@ + item@));
            }
        }
        i += 1;
    }
    assert(data@.take(i as int) =~= data@);
    out.append("]");
    out
}

/// Why bytes are not valid UTF-8, in the words of the standard library.
pub uninterp spec fn utf8_error_text(bytes: Seq<u8>) -> Seq<char>;

/// Calls `String::from_utf8`, which succeeds exactly on valid UTF-8 and then returns the
/// text that the bytes encode. What the error says is named and not stated: it depends on
/// the bytes alone.
#[verifier::external_body]
pub(crate) fn utf8_string(bytes: Vec<u8>) -> (r: Result<String, String>)
    ensures
        match r {
            Ok(s) => vstd::utf8::valid_utf8(bytes@) && s@ == vstd::utf8::decode_utf8(bytes@),
            Err(e) => !vstd::utf8::valid_utf8(bytes@) && e@ == utf8_error_text(bytes@),
        },
{
    String::from_utf8(bytes).map_err(|e| e.to_string())
}

/// A number reads back as the value it was written from, zeros in front or not.
pub proof fn number_text_reads_back(n: nat, radix: nat, width: nat, max: nat)
    requires
        2 <= radix <= 16,
        n <= max,
    ensures
        parse_number(number_text(n, radix), radix, max) == Some(n),
        parse_number(padded_text(n, radix, width), radix, max) == Some(n),
        number_text(n, radix).len() > 0,
        is_number(number_text(n, radix), radix),
        is_number(padded_text(n, radix, width), radix),
{
    lemma_number_text(n, radix);
    let t = number_text(n, radix);
    assert(digit_value(t[0]) < radix);
    assert(without_plus(t) =~= t);
    let p = padded_text(n, radix, width);
    if t.len() < width {
        let z = Seq::new((width - t.len()) as nat, |i: int| '0');
        lemma_zeros_in_front(z, t, radix);
        assert forall|i: int| 0 <= i < p.len() implies #[trigger] digit_value(p[i]) < radix by {
            if i >= z.len() {
                assert(digit_value(t[i - z.len()]) < radix);
            }
        }
        assert(digit_value(p[0]) < radix);
        assert(without_plus(p) =~= p);
    }
}

proof fn lemma_number_text(n: nat, radix: nat)
    requires
        2 <= radix <= 16,
    ensures
        number_text(n, radix).len() > 0,
        is_number(number_text(n, radix), radix),
        number_value(number_text(n, radix), radix) == n,
    decreases n,
{
    let t = number_text(n, radix);
    if n < radix {
        assert(t.drop_last() =~= Seq::empty());
        assert(digit_value(t[0]) == n);
        assert(number_value(t.drop_last(), radix) == 0);
        assert(0 * radix == 0) by (nonlinear_arith);
    } else {
        vstd::arithmetic::div_mod::lemma_div_decreases(n as int, radix as int);
        vstd::arithmetic::div_mod::lemma_mod_bound(n as int, radix as int);
        vstd::arithmetic::div_mod::lemma_fundamental_div_mod(n as int, radix as int);
        lemma_number_text(n / radix, radix);
        let u = number_text(n / radix, radix);
        assert(t.drop_last() =~= u);
        assert(digit_value(digit_char(n % radix)) == n % radix);
        assert((n / radix) * radix + n % radix == n) by (nonlinear_arith)
            requires
                n as int == (radix as int) * (n as int / radix as int) + n as int % radix as int,
                radix >= 2,
        ;
        assert forall|i: int| 0 <= i < t.len() implies #[trigger] digit_value(t[i]) < radix by {
            if i < u.len() {
                assert(digit_value(u[i]) < radix);
            }
        }
    }
}

proof fn lemma_zeros_in_front(z: Seq<char>, t: Seq<char>, radix: nat)
    requires
        forall|i: int| 0 <= i < z.len() ==> z[i] == '0',
    ensures
        number_value(z + t, radix) == number_value(t, radix),
    decreases z.len() + t.len(),
{
    if t.len() > 0 {
        assert((z + t).drop_last() =~= z + t.drop_last());
        lemma_zeros_in_front(z, t.drop_last(), radix);
    } else if z.len() > 0 {
        assert(z + t =~= z);
        assert(z.drop_last() + t =~= z.drop_last());
        lemma_zeros_in_front(z.drop_last(), t, radix);
        assert(0 * radix == 0) by (nonlinear_arith);
    } else {
        assert(z + t =~= t);
    }
}

// ---------------------------------------------------------------------------
// Floating-point literals
// ---------------------------------------------------------------------------

/// Number of decimal digits at the front of `s`.
pub open spec fn digits_len(s: Seq<char>) -> nat
    decreases s.len(),
{
    if s.len() > 0 && digit_value(s[0]) < 10 {
        1 + digits_len(s.skip(1))
    } else {
        0
    }
}

pub open spec fn lower(c: char) -> char {
    if 'A' <= c && c <= 'Z' { ((c as u32 + 32) as u32) as char } else { c }
}

/// Whether `s` is the ASCII text `t` but for the case of letters.
pub open spec fn same_ignoring_case(s: Seq<char>, t: Seq<char>) -> bool {
    s.len() == t.len() && forall|i: int| 0 <= i < s.len() ==> #[trigger] lower(s[i]) == lower(t[i])
}

/// `s` without one leading sign.
pub open spec fn without_sign(s: Seq<char>) -> Seq<char> {
    if s.len() > 0 && (s[0] == '+' || s[0] == '-') { s.skip(1) } else { s }
}

/// Nothing, or an `e`, an optional sign and digits.
pub open spec fn is_exponent(s: Seq<char>) -> bool {
    s.len() == 0 || ((s[0] == 'e' || s[0] == 'E') && {
        let d = without_sign(s.skip(1));
        d.len() > 0 && digits_len(d) == d.len()
    })
}

/// Digits with an optional point among them, at least one digit, and an optional exponent.
pub open spec fn is_decimal(s: Seq<char>) -> bool {
    let a = digits_len(s);
    let t = s.skip(a as int);
    if t.len() > 0 && t[0] == '.' {
        let b = digits_len(t.skip(1));
        a + b > 0 && is_exponent(t.skip(1 + b as int))
    } else {
        a > 0 && is_exponent(t)
    }
}

/// Whether `s` is a literal that Rust's `f64` parser accepts: an optional sign, then
/// `inf`, `infinity`, `nan` in any case or a decimal number.
pub open spec fn is_float(s: Seq<char>) -> bool {
    let t = without_sign(s);
    ||| same_ignoring_case(t, "inf"@)
    ||| same_ignoring_case(t, "infinity"@)
    ||| same_ignoring_case(t, "nan"@)
    ||| is_decimal(t)
}

fn lower_char(c: char) -> (r: char)
    ensures
        r == lower(c),
{
    if 'A' <= c && c <= 'Z' {
        (c as u8 + 32) as char
    } else {
        c
    }
}

/// Whether `cs` is the ASCII text `t` but for the case of letters.
pub fn equals_ignoring_case(cs: &[char], t: &str) -> (r: bool)
    ensures
        r == same_ignoring_case(cs@, t@),
{
    let u = chars_of(t);
    if cs.len() != u.len() {
        return false;
    }
    let mut i: usize = 0;
    while i < cs.len()
        invariant
            i <= cs@.len() == u@.len(),
            u@ == t@,
            forall|j: int| 0 <= j < i ==> #[trigger] lower(cs@[j]) == lower(t@[j]),
        decreases cs@.len() - i,
    {
        if lower_char(cs[i]) != lower_char(u[i]) {
            return false;
        }
        i += 1;
    }
    true
}

fn leading_digits(cs: &[char]) -> (r: usize)
    ensures
        r == digits_len(cs@),
        r <= cs@.len(),
{
    let mut i: usize = 0;
    assert(cs@.skip(0) =~= cs@);
    while i < cs.len() && digit_of(cs[i]) < 10
        invariant
            i <= cs@.len(),
            digits_len(cs@) == i + digits_len(cs@.skip(i as int)),
        decreases cs@.len() - i,
    {
        assert(cs@.skip(i as int).skip(1) =~= cs@.skip(i + 1));
        i += 1;
    }
    i
}

fn skip_sign(cs: &[char]) -> (r: &[char])
    ensures
        r@ == without_sign(cs@),
{
    if cs.len() > 0 && (cs[0] == '+' || cs[0] == '-') {
        slice_subrange(cs, 1, cs.len())
    } else {
        cs
    }
}

fn exponent(cs: &[char]) -> (r: bool)
    ensures
        r == is_exponent(cs@),
{
    if cs.len() == 0 {
        return true;
    }
    if cs[0] != 'e' && cs[0] != 'E' {
        return false;
    }
    let tail: &[char] = slice_subrange(cs, 1, cs.len());
    assert(tail@ =~= cs@.skip(1));
    let d = skip_sign(tail);
    d.len() > 0 && leading_digits(d) == d.len()
}

/// Whether `cs` is a literal of a floating-point number.
pub fn float_literal(cs: &[char]) -> (r: bool)
    ensures
        r == is_float(cs@),
{
    let t = skip_sign(cs);
    if equals_ignoring_case(t, "inf") || equals_ignoring_case(t, "infinity")
        || equals_ignoring_case(t, "nan") {
        return true;
    }
    let a: usize = leading_digits(t);
    let u: &[char] = slice_subrange(t, a, t.len());
    assert(u@ =~= t@.skip(a as int));
    if u.len() > 0 && u[0] == '.' {
        let v: &[char] = slice_subrange(u, 1, u.len());
        assert(v@ =~= u@.skip(1));
        let b: usize = leading_digits(v);
        let w: &[char] = slice_subrange(v, b, v.len());
        assert(w@ =~= u@.skip(1 + b as int));
        (a > 0 || b > 0) && exponent(w)
    } else {
        a > 0 && exponent(u)
    }
}

// ---------------------------------------------------------------------------
// Laws
// ---------------------------------------------------------------------------

/// The digits of numbers: the ten decimal digits, and then letters in either case. No other
/// character is a digit.
pub proof fn digits_and_their_values(c: char, d: nat)
    requires
        d < 16,
    ensures
        digit_value("0123456789ABCDEF"@[d as int]) == d,
        digit_value("0123456789abcdef"@[d as int]) == d,
        digit_char(d) == "0123456789ABCDEF"@[d as int],
        digit_value(c) == d ==> c == "0123456789ABCDEF"@[d as int] || c
            == "0123456789abcdef"@[d as int],
{
    reveal_strlit("0123456789ABCDEF");
    reveal_strlit("0123456789abcdef");
}

/// A number is written with its last digit behind the digits of what is left of it, and the
/// first digit is not zero unless it is the only one.
pub proof fn numbers_end_with_their_last_digit(n: nat, radix: nat)
    requires
        2 <= radix <= 16,
    ensures
        number_text(n, radix).len() > 0,
        number_text(n, radix).last() == "0123456789ABCDEF"@[(n % radix) as int],
        n >= radix ==> number_text(n, radix).drop_last() == number_text(n / radix, radix),
        n < radix ==> number_text(n, radix).len() == 1,
        n > 0 ==> number_text(n, radix)[0] != '0',
    decreases n,
{
    vstd::arithmetic::div_mod::lemma_mod_bound(n as int, radix as int);
    digits_and_their_values('0', n % radix);
    if n < radix {
        vstd::arithmetic::div_mod::lemma_small_mod(n, radix);
        assert(digit_value('0') == 0);
    } else {
        vstd::arithmetic::div_mod::lemma_div_decreases(n as int, radix as int);
        vstd::arithmetic::div_mod::lemma_div_non_zero(n as int, radix as int);
        numbers_end_with_their_last_digit(n / radix, radix);
        let t = number_text(n / radix, radix);
        assert(number_text(n, radix).drop_last() =~= t);
        assert(number_text(n, radix)[0] == t[0]);
    }
}

/// Zeros are put in front of a number to make up the width, and nothing is cut off.
pub proof fn zeros_make_up_the_width(n: nat, radix: nat, width: nat)
    ensures
        ({
            let t = number_text(n, radix);
            let p = padded_text(n, radix, width);
            &&& p.len() == (if t.len() < width { width } else { t.len() })
            &&& p.skip(p.len() - t.len()) == t
            &&& forall|i: int| 0 <= i < p.len() - t.len() ==> #[trigger] p[i] == '0'
        }),
{
    let t = number_text(n, radix);
    let p = padded_text(n, radix, width);
    assert(p.skip(p.len() - t.len()) =~= t);
}

/// What is read as a number: at least one digit, all of them below the base, with a plus
/// sign in front or not. One more digit multiplies by the base and adds the digit. A number
/// that is too large is not read.
pub proof fn numbers_are_read_digit_by_digit(s: Seq<char>, c: char, radix: nat, max: nat)
    requires
        2 <= radix <= 16,
        s.len() > 0,
        s[0] != '+',
    ensures
        parse_number(Seq::empty(), radix, max) is None,
        parse_number(seq![c], radix, max) == (if digit_value(c) < radix && digit_value(c) <= max {
            Some(digit_value(c))
        } else {
            None
        }),
        parse_number(s.push(c), radix, max) is Some ==> parse_number(s, radix, max) is Some,
        parse_number(s, radix, max) matches Some(v) ==> parse_number(s.push(c), radix, max) == (
        if digit_value(c) < radix && v * radix + digit_value(c) <= max {
            Some(v * radix + digit_value(c))
        } else {
            None
        }),
        parse_number(seq!['+'] + s, radix, max) == parse_number(s, radix, max),
{
    let t = s.push(c);
    let one = seq![c];
    assert(one.drop_last() =~= Seq::empty());
    assert(number_value(one.drop_last(), radix) == 0);
    assert(0 * radix == 0) by (nonlinear_arith);
    assert(number_value(one, radix) == digit_value(c));
    assert(without_plus(one) == one);
    assert(is_number(one, radix) <==> digit_value(c) < radix) by {
        assert(digit_value(one[0]) == digit_value(c));
    }
    assert(t.drop_last() =~= s);
    assert(t[0] == s[0]);
    assert(without_plus(s) == s && without_plus(t) == t);
    if is_number(t, radix) {
        assert forall|i: int| 0 <= i < s.len() implies #[trigger] digit_value(s[i]) < radix by {
            assert(digit_value(t[i]) < radix);
        }
        assert(digit_value(t[s.len() as int]) < radix);
    }
    if is_number(s, radix) && digit_value(c) < radix {
        assert forall|i: int| 0 <= i < t.len() implies #[trigger] digit_value(t[i]) < radix by {
            if i < s.len() {
                assert(digit_value(s[i]) < radix);
            }
        }
    }
    let v = number_value(s, radix);
    assert(v <= v * radix) by (nonlinear_arith)
        requires
            radix >= 2,
            v >= 0,
    ;
    let p = seq!['+'] + s;
    assert(without_plus(p) =~= s);
}

/// Trimming takes white space off both ends and nothing else.
pub proof fn trimming_takes_only_white_space(s: Seq<char>)
    ensures
        exists|i: int, j: int|
            0 <= i <= j <= s.len() && trimmed(s) == #[trigger] s.subrange(i, j) && (forall|k: int|
                0 <= k < i || j <= k < s.len() ==> is_space(#[trigger] s[k])),
        trimmed(s).len() > 0 ==> !is_space(trimmed(s)[0]) && !is_space(trimmed(s).last()),
{
    let i = lemma_trim_start_cut(s);
    let t = trim_start(s);
    let j = lemma_trim_end_cut(t);
    let r = trimmed(s);
    assert(r =~= s.subrange(i, i + j));
    assert forall|k: int| 0 <= k < i || i + j <= k < s.len() implies is_space(
        #[trigger] s[k],
    ) by {
        if k >= i {
            assert(t[k - i] == s[k]);
        }
    }
    if r.len() > 0 {
        assert(r[0] == t[0]);
    }
}

proof fn lemma_trim_start_cut(s: Seq<char>) -> (i: int)
    ensures
        0 <= i <= s.len(),
        trim_start(s) == s.skip(i),
        forall|k: int| 0 <= k < i ==> is_space(#[trigger] s[k]),
        trim_start(s).len() > 0 ==> !is_space(trim_start(s)[0]),
    decreases s.len(),
{
    if s.len() > 0 && is_space(s[0]) {
        let i = lemma_trim_start_cut(s.skip(1));
        assert(s.skip(1).skip(i) =~= s.skip(i + 1));
        assert forall|k: int| 0 <= k < i + 1 implies is_space(#[trigger] s[k]) by {
            if k > 0 {
                assert(s.skip(1)[k - 1] == s[k]);
            }
        }
        i + 1
    } else {
        assert(s.skip(0) =~= s);
        0
    }
}

proof fn lemma_trim_end_cut(s: Seq<char>) -> (j: int)
    ensures
        0 <= j <= s.len(),
        trim_end(s) == s.take(j),
        forall|k: int| j <= k < s.len() ==> is_space(#[trigger] s[k]),
        trim_end(s).len() > 0 ==> !is_space(trim_end(s).last()),
    decreases s.len(),
{
    if s.len() > 0 && is_space(s.last()) {
        let j = lemma_trim_end_cut(s.drop_last());
        assert(s.drop_last().take(j) =~= s.take(j));
        assert forall|k: int| j <= k < s.len() implies is_space(#[trigger] s[k]) by {
            if k < s.len() - 1 {
                assert(s.drop_last()[k] == s[k]);
            }
        }
        j
    } else {
        assert(s.take(s.len() as int) =~= s);
        s.len() as int
    }
}

/// Text without white space at its ends stays as it is when it is trimmed, and comes out
/// again when blanks were put around it.
pub proof fn trimming_undoes_blanks(a: Seq<char>, s: Seq<char>, b: Seq<char>)
    requires
        s.len() > 0,
        !is_space(s[0]),
        !is_space(s.last()),
        forall|i: int| 0 <= i < a.len() ==> is_space(#[trigger] a[i]),
        forall|i: int| 0 <= i < b.len() ==> is_space(#[trigger] b[i]),
    ensures
        trimmed(a + s + b) == s,
    decreases a.len() + b.len(),
{
    let all = a + s + b;
    if a.len() > 0 {
        assert(all[0] == a[0]);
        assert(all.skip(1) =~= a.skip(1) + s + b);
        assert forall|i: int| 0 <= i < a.skip(1).len() implies is_space(
            #[trigger] a.skip(1)[i],
        ) by {
            assert(a.skip(1)[i] == a[i + 1]);
        }
        trimming_undoes_blanks(a.skip(1), s, b);
    } else {
        assert(all =~= s + b);
        assert(all[0] == s[0]);
        assert(trim_start(all) == all);
        lemma_trim_end_blanks(s, b);
    }
}

proof fn lemma_trim_end_blanks(s: Seq<char>, b: Seq<char>)
    requires
        s.len() > 0,
        !is_space(s.last()),
        forall|i: int| 0 <= i < b.len() ==> is_space(#[trigger] b[i]),
    ensures
        trim_end(s + b) == s,
    decreases b.len(),
{
    if b.len() > 0 {
        assert((s + b).last() == b[b.len() - 1]);
        assert((s + b).drop_last() =~= s + b.drop_last());
        assert forall|i: int| 0 <= i < b.drop_last().len() implies is_space(
            #[trigger] b.drop_last()[i],
        ) by {
            assert(b.drop_last()[i] == b[i]);
        }
        lemma_trim_end_blanks(s, b.drop_last());
    } else {
        assert(s + b =~= s);
    }
}

/// The pieces between the separators, in order, for a text with as many separators as there
/// may be cuts at most: here the first piece, which has none.
pub proof fn pieces_are_cut_off_in_front(a: Seq<char>, rest: Seq<char>, n: nat, c: char)
    requires
        n > 1,
        forall|i: int| 0 <= i < a.len() ==> a[i] != c,
    ensures
        split_at_most(a + seq![c] + rest, n, c) == seq![a] + split_at_most(
            rest,
            (n - 1) as nat,
            c,
        ),
        split_at_most(a, n, c) == seq![a],
        split_at_most(a, 1, c) == seq![a],
{
    let s = a + seq![c] + rest;
    first_place(a, seq![c] + rest, c);
    assert(s =~= a + (seq![c] + rest));
    assert(s.take(a.len() as int) =~= a);
    assert(s.skip(a.len() as int + 1) =~= rest);
    a.index_of_first_ensures(c);
    if a.index_of_first(c) is Some {
        let i = a.index_of_first(c)->0;
        assert(a[i] == c);
    }
}

/// A character that does not occur in the front of a text is first where the rest begins
/// with it.
pub proof fn first_place(a: Seq<char>, b: Seq<char>, c: char)
    requires
        forall|i: int| 0 <= i < a.len() ==> a[i] != c,
        b.len() > 0,
        b[0] == c,
    ensures
        (a + b).index_of_first(c) == Some(a.len() as int),
{
    let s = a + b;
    s.index_of_first_ensures(c);
    assert(s[a.len() as int] == c);
    assert(s.contains(c));
    let i = s.index_of_first(c)->0;
    if i < a.len() {
        assert(s[i] == a[i]);
    } else if i > a.len() {
        assert(s[a.len() as int] != c);
    }
}

/// The lines of a text without a newline are the text itself.
pub proof fn text_without_newline_is_one_line(s: Seq<char>)
    requires
        forall|i: int| 0 <= i < s.len() ==> s[i] != '\n',
    ensures
        s.len() > 0 ==> lines(s) == seq![s],
        s.len() == 0 ==> lines(s) == Seq::<Seq<char>>::empty(),
{
    s.index_of_first_ensures('\n');
}

proof fn lemma_word_len_exact(w: Seq<char>, r: Seq<char>)
    requires
        forall|i: int| 0 <= i < w.len() ==> !is_space(#[trigger] w[i]),
        r.len() == 0 || is_space(r[0]),
    ensures
        word_len(w + r) == w.len(),
    decreases w.len(),
{
    let s = w + r;
    if w.len() > 0 {
        assert(s[0] == w[0]);
        assert(s.skip(1) =~= w.skip(1) + r);
        assert forall|i: int| 0 <= i < w.skip(1).len() implies !is_space(
            #[trigger] w.skip(1)[i],
        ) by {
            assert(w.skip(1)[i] == w[i + 1]);
        }
        lemma_word_len_exact(w.skip(1), r);
    } else {
        assert(s =~= r);
    }
}

/// Text without white space in front of white space, or of nothing, is the first word.
pub proof fn words_in_front(w: Seq<char>, r: Seq<char>)
    requires
        w.len() > 0,
        forall|i: int| 0 <= i < w.len() ==> !is_space(#[trigger] w[i]),
        r.len() == 0 || is_space(r[0]),
    ensures
        words(w + r) == seq![w] + words(r),
{
    let s = w + r;
    assert(s[0] == w[0]);
    assert(trim_start(s) == s);
    lemma_word_len_exact(w, r);
    assert(s.take(w.len() as int) =~= w);
    assert(s.skip(w.len() as int) =~= r);
}

proof fn lemma_digits_len(d: Seq<char>, r: Seq<char>)
    requires
        is_number(d, 10),
        r.len() == 0 || digit_value(r[0]) >= 10,
    ensures
        digits_len(d + r) == d.len(),
    decreases d.len(),
{
    let s = d + r;
    if d.len() > 0 {
        assert(digit_value(d[0]) < 10);
        assert(s[0] == d[0]);
        assert(s.skip(1) =~= d.skip(1) + r);
        assert forall|i: int| 0 <= i < d.skip(1).len() implies #[trigger] digit_value(d.skip(1)[i])
            < 10 by {
            assert(d.skip(1)[i] == d[i + 1]);
        }
        lemma_digits_len(d.skip(1), r);
    } else {
        assert(s =~= r);
    }
}

/// Digits, digits with a point among them or at an end, either with an exponent or with a
/// sign in front, are literals of floating-point numbers. Nothing, a sign or a point alone,
/// and an exponent without digits are none.
pub proof fn literals_of_numbers(a: Seq<char>, b: Seq<char>, e: Seq<char>, sign: char)
    requires
        is_number(a, 10),
        is_number(b, 10),
        is_number(e, 10),
        sign == '+' || sign == '-',
    ensures
        is_float(a) <==> a.len() > 0,
        is_float(seq![sign] + a) <==> a.len() > 0,
        is_float(a + seq!['.'] + b) <==> a.len() + b.len() > 0,
        is_float(a + seq!['e', sign] + e) <==> a.len() > 0 && e.len() > 0,
{
    reveal_strlit("inf");
    reveal_strlit("infinity");
    reveal_strlit("nan");
    assert(a + Seq::<char>::empty() =~= a);
    lemma_digits_len(a, Seq::empty());
    lemma_not_a_word(a);
    assert(without_sign(a) == a) by {
        if a.len() > 0 {
            assert(digit_value(a[0]) < 10);
        }
    }
    assert(a.skip(a.len() as int) =~= Seq::empty());
    assert(is_decimal(a) <==> a.len() > 0);
    assert(without_sign(seq![sign] + a) =~= a);
    let p = a + seq!['.'] + b;
    assert(p =~= a + (seq!['.'] + b));
    assert(without_sign(p) == p) by {
        if a.len() > 0 {
            assert(digit_value(a[0]) < 10);
            assert(p[0] == a[0]);
        }
    }
    lemma_not_a_word(p);
    lemma_digits_len(a, seq!['.'] + b);
    let q = p.skip(a.len() as int);
    assert(q =~= seq!['.'] + b);
    assert(q.skip(1) =~= b + Seq::<char>::empty());
    lemma_digits_len(b, Seq::empty());
    assert(q.skip(1 + b.len() as int) =~= Seq::empty());
    let x = a + seq!['e', sign] + e;
    assert(x =~= a + (seq!['e', sign] + e));
    assert(without_sign(x) == x) by {
        if a.len() > 0 {
            assert(digit_value(a[0]) < 10);
            assert(x[0] == a[0]);
        }
    }
    lemma_not_a_word(x);
    lemma_digits_len(a, seq!['e', sign] + e);
    let y = x.skip(a.len() as int);
    assert(y =~= seq!['e', sign] + e);
    assert(y.skip(1) =~= seq![sign] + e);
    assert(without_sign(y.skip(1)) =~= e);
    assert(e + Seq::<char>::empty() =~= e);
    lemma_digits_len(e, Seq::empty());
}

/// Text that begins with a digit, a point or an `e`, or is empty, is none of the words for
/// numbers.
proof fn lemma_not_a_word(s: Seq<char>)
    requires
        s.len() == 0 || digit_value(s[0]) < 10 || s[0] == '.' || s[0] == 'e',
    ensures
        !same_ignoring_case(s, "inf"@),
        !same_ignoring_case(s, "infinity"@),
        !same_ignoring_case(s, "nan"@),
{
    reveal_strlit("inf");
    reveal_strlit("infinity");
    reveal_strlit("nan");
    if s.len() > 0 {
        assert(lower(s[0]) == s[0]);
        assert("inf"@[0] == 'i' && "infinity"@[0] == 'i' && "nan"@[0] == 'n');
        assert(lower('i') == 'i' && lower('n') == 'n');
    }
}

/// Letters count the same in either case, and nothing else does.
pub proof fn case_of_letters(c: char, d: char)
    ensures
        same_ignoring_case(seq![c], seq![d]) <==> c == d || ('a' <= c && c <= 'z' && d as int
            == c as int - 32) || ('A' <= c && c <= 'Z' && d as int == c as int + 32),
{
    assert(seq![c][0] == c && seq![d][0] == d);
    if same_ignoring_case(seq![c], seq![d]) {
        assert(lower(seq![c][0]) == lower(seq![d][0]));
    }
}

/// White space in ASCII: the blank, and the five control characters from the tabulator to
/// the carriage return. Among the other characters the no-break space and the wide blanks
/// are white space, letters and digits never.
pub proof fn white_space(c: char)
    ensures
        (c as u32) < 128 ==> (is_space(c) <==> c == ' ' || c == '\t' || c == '\n' || c as u32 == 11
            || c as u32 == 12 || c == '\r'),
        c as u32 == 0xA0 || c as u32 == 0x3000 || c as u32 == 0x85 || 0x2000 <= c as u32 <= 0x200A
            ==> is_space(c),
        c as u32 == 0x1680 || c as u32 == 0x2028 || c as u32 == 0x2029 || c as u32 == 0x202F
            || c as u32 == 0x205F ==> is_space(c),
        digit_value(c) < 16 ==> !is_space(c),
        'a' <= c && c <= 'z' || 'A' <= c && c <= 'Z' ==> !is_space(c),
{
}

/// White space in front of words does not count, and white space alone holds none.
pub proof fn leading_white_space_does_not_count(c: char, r: Seq<char>)
    requires
        is_space(c),
    ensures
        words(seq![c] + r) == words(r),
        words(Seq::empty()) == Seq::<Seq<char>>::empty(),
{
    let s = seq![c] + r;
    assert(s[0] == c);
    assert(s.skip(1) =~= r);
    assert(trim_start(s) == trim_start(r));
    lemma_trim_start_len(s);
    lemma_word_len(trim_start(s));
    lemma_trim_start_len(r);
}

} // verus!
