//! Plain text operations on `str` and `String`, stated over sequences of characters.

use vstd::prelude::*;
use vstd::string::*;

verus! {

/// `String::push` appends one character to the end of the string.
pub assume_specification[ String::push ](s: &mut String, c: char)
    ensures
        final(s)@ == old(s)@.push(c),
;

/// Two texts are equal exactly when they hold the same characters.
pub fn same_text(a: &str, b: &str) -> (same: bool)
    ensures
        same == (a@ == b@),
{
    let left: &[u8] = a.as_bytes();
    let right: &[u8] = b.as_bytes();
    proof {
        vstd::utf8::encode_utf8_decode_utf8(a@);
        vstd::utf8::encode_utf8_decode_utf8(b@);
    }
    if left.len() != right.len() {
        return false;
    }
    let mut i: usize = 0;
    while i < left.len()
        invariant
            i <= left@.len(),
            left@.len() == right@.len(),
            left@ == a.spec_bytes(),
            right@ == b.spec_bytes(),
            forall|j: int| 0 <= j < i ==> left@[j] == right@[j],
        decreases left@.len() - i,
    {
        if left[i] != right[i] {
            return false;
        }
        i += 1;
    }
    assert(left@ =~= right@);
    true
}

/// The characters of a text, in order.
pub fn chars_of(s: &str) -> (chars: Vec<char>)
    ensures
        chars@ == s@,
{
    let mut chars: Vec<char> = Vec::new();
    for c in it: s.chars()
        invariant
            it.seq() == s@,
            chars@ == s@.take(it.index()),
    {
        chars.push(c);
    }
    chars
}

/// The characters with the Unicode `White_Space` property.
pub open spec fn is_white(c: char) -> bool {
    let n = c as u32;
    ||| 0x9 <= n <= 0xd
    ||| n == 0x20
    ||| n == 0x85
    ||| n == 0xa0
    ||| n == 0x1680
    ||| 0x2000 <= n <= 0x200a
    ||| n == 0x2028
    ||| n == 0x2029
    ||| n == 0x202f
    ||| n == 0x205f
    ||| n == 0x3000
}

/// Whether a character counts as whitespace.
pub fn is_whitespace(c: char) -> (white: bool)
    ensures
        white == is_white(c),
{
    let n: u32 = c as u32;
    (0x9 <= n && n <= 0xd) || n == 0x20 || n == 0x85 || n == 0xa0 || n == 0x1680 || (0x2000 <= n
        && n <= 0x200a) || n == 0x2028 || n == 0x2029 || n == 0x202f || n == 0x205f || n == 0x3000
}

/// A text without its leading whitespace.
pub open spec fn trimmed_start(s: Seq<char>) -> Seq<char>
    decreases s.len(),
{
    if s.len() > 0 && is_white(s[0]) {
        trimmed_start(s.drop_first())
    } else {
        s
    }
}

/// A text without its trailing whitespace.
pub open spec fn trimmed_end(s: Seq<char>) -> Seq<char>
    decreases s.len(),
{
    if s.len() > 0 && is_white(s.last()) {
        trimmed_end(s.drop_last())
    } else {
        s
    }
}

/// A text without its leading and trailing whitespace.
pub open spec fn trimmed(s: Seq<char>) -> Seq<char> {
    trimmed_end(trimmed_start(s))
}

proof fn lemma_trimmed_start(s: Seq<char>, start: int)
    requires
        0 <= start <= s.len(),
        forall|j: int| 0 <= j < start ==> is_white(s[j]),
        start < s.len() ==> !is_white(s[start]),
    ensures
        trimmed_start(s) == s.skip(start),
    decreases s.len(),
{
    if start > 0 {
        let rest = s.drop_first();
        assert forall|j: int| 0 <= j < start - 1 implies is_white(rest[j]) by {
            assert(rest[j] == s[j + 1]);
        }
        lemma_trimmed_start(rest, start - 1);
        assert(rest.skip(start - 1) =~= s.skip(start));
    } else {
        assert(s.skip(0) =~= s);
    }
}

proof fn lemma_trimmed_end(s: Seq<char>, end: int)
    requires
        0 <= end <= s.len(),
        forall|j: int| end <= j < s.len() ==> is_white(s[j]),
        end > 0 ==> !is_white(s[end - 1]),
    ensures
        trimmed_end(s) == s.take(end),
    decreases s.len(),
{
    if end < s.len() {
        assert(is_white(s.last()));
        lemma_trimmed_end(s.drop_last(), end);
        assert(s.drop_last().take(end) =~= s.take(end));
    } else {
        assert(s.take(end) =~= s);
    }
}

/// A trimmed text does not start or end with whitespace.
pub proof fn trimmed_has_no_outer_whitespace(s: Seq<char>)
    ensures
        trimmed(s).len() > 0 ==> !is_white(trimmed(s)[0]) && !is_white(trimmed(s).last()),
    decreases s.len(),
{
    if s.len() > 0 && is_white(s[0]) {
        trimmed_has_no_outer_whitespace(s.drop_first());
    } else {
        lemma_trimmed_end_keeps_front(s);
    }
}

proof fn lemma_trimmed_end_keeps_front(s: Seq<char>)
    ensures
        trimmed_end(s).len() > 0 ==> s.len() > 0 && trimmed_end(s)[0] == s[0] && !is_white(
            trimmed_end(s).last(),
        ),
    decreases s.len(),
{
    if s.len() > 0 && is_white(s.last()) {
        lemma_trimmed_end_keeps_front(s.drop_last());
    }
}

/// Trimming a trimmed text changes nothing.
pub proof fn trimming_is_idempotent(s: Seq<char>)
    ensures
        trimmed(trimmed(s)) == trimmed(s),
{
    trimmed_has_no_outer_whitespace(s);
}

/// Where the text between the outer whitespace starts and ends.
fn trim_bounds(s: &str) -> (bounds: (usize, usize))
    ensures
        bounds.0 <= bounds.1 <= s@.len(),
        forall|j: int| 0 <= j < bounds.0 ==> is_white(s@[j]),
        bounds.0 < s@.len() ==> bounds.0 < bounds.1 && !is_white(s@[bounds.0 as int]),
        forall|j: int| bounds.1 <= j < s@.len() ==> is_white(s@[j]),
        bounds.0 < bounds.1 ==> !is_white(s@[bounds.1 - 1]),
{
    let len: usize = s.unicode_len();
    let mut start: usize = 0;
    let mut end: usize = 0;
    let mut at: usize = 0;
    for c in it: s.chars()
        invariant
            it.seq() == s@,
            len == s@.len(),
            at == it.index(),
            start <= at,
            end <= at,
            forall|j: int| 0 <= j < start ==> is_white(s@[j]),
            end == 0 ==> start == at,
            end > 0 ==> start < end && !is_white(s@[start as int]) && !is_white(s@[end - 1]),
            forall|j: int| end <= j < at && end > 0 ==> is_white(s@[j]),
    {
        if is_whitespace(c) {
            if end == 0 {
                start += 1;
            }
        } else {
            end = at + 1;
        }
        at += 1;
    }
    if end == 0 {
        (len, len)
    } else {
        (start, end)
    }
}

/// The text without leading and trailing whitespace.
pub fn trim<'a>(s: &'a str) -> (r: &'a str)
    ensures
        r@ == trimmed(s@),
{
    let (start, end): (usize, usize) = trim_bounds(s);
    proof {
        lemma_trimmed_start(s@, start as int);
        lemma_trimmed_end(s@.skip(start as int), end - start);
        assert(s@.skip(start as int).take(end - start) =~= s@.subrange(start as int, end as int));
    }
    s.substring_char(start, end)
}

/// The text without leading whitespace.
pub fn trim_start<'a>(s: &'a str) -> (r: &'a str)
    ensures
        r@ == trimmed_start(s@),
{
    let (start, end): (usize, usize) = trim_bounds(s);
    let len: usize = s.unicode_len();
    proof {
        lemma_trimmed_start(s@, start as int);
        assert(s@.subrange(start as int, len as int) =~= s@.skip(start as int));
    }
    s.substring_char(start, len)
}

/// The lower case of an ASCII letter; any other character as it is.
pub open spec fn lower_ascii_char(c: char) -> char {
    if 'A' <= c <= 'Z' {
        ((c as u8) + 32) as char
    } else {
        c
    }
}

/// A text with its ASCII letters in lower case.
pub open spec fn lower_ascii(s: Seq<char>) -> Seq<char> {
    s.map_values(|c: char| lower_ascii_char(c))
}

/// The text with its ASCII letters in lower case.
pub fn to_ascii_lowercase(s: &str) -> (r: String)
    ensures
        r@ == lower_ascii(s@),
{
    let mut out: String = String::new();
    for c in it: s.chars()
        invariant
            it.seq() == s@,
            out@ == lower_ascii(s@.take(it.index())),
    {
        let low: char = if 'A' <= c && c <= 'Z' {
            ((c as u8) + 32) as char
        } else {
            c
        };
        out.push(low);
        assert(s@.take(it.index() + 1) =~= s@.take(it.index()).push(c));
    }
    assert(s@.take(s@.len() as int) =~= s@);
    out
}

/// Whether `pattern` occurs in `s`.
pub open spec fn has_text(s: Seq<char>, pattern: Seq<char>) -> bool {
    exists|i: int| occurs_at(s, pattern, i)
}

/// Whether `pattern` occurs in `s` from position `i` on.
pub open spec fn occurs_at(s: Seq<char>, pattern: Seq<char>, i: int) -> bool {
    &&& 0 <= i
    &&& i + pattern.len() <= s.len()
    &&& s.subrange(i, i + pattern.len()) == pattern
}

/// Whether `pattern` occurs in `text` from position `at` on.
fn matches_at(text: &Vec<char>, pattern: &Vec<char>, at: usize) -> (found: bool)
    requires
        at <= text@.len(),
    ensures
        found == occurs_at(text@, pattern@, at as int),
{
    if pattern.len() > text.len() - at {
        return false;
    }
    let len: usize = text.len();
    let mut i: usize = 0;
    while i < pattern.len()
        invariant
            i <= pattern@.len(),
            len == text@.len(),
            at + pattern@.len() <= text@.len(),
            forall|j: int| 0 <= j < i ==> text@[at + j] == pattern@[j],
        decreases pattern@.len() - i,
    {
        if text[at + i] != pattern[i] {
            assert(text@.subrange(at as int, at + pattern@.len())[i as int] != pattern@[i as int]);
            return false;
        }
        i += 1;
    }
    assert(text@.subrange(at as int, at + pattern@.len()) =~= pattern@);
    true
}

/// Whether `pattern` occurs in `text`.
pub fn contains(text: &str, pattern: &str) -> (found: bool)
    ensures
        found == has_text(text@, pattern@),
{
    let t: Vec<char> = chars_of(text);
    let p: Vec<char> = chars_of(pattern);
    let mut i: usize = 0;
    while i < t.len()
        invariant
            i <= t@.len(),
            t@ == text@,
            p@ == pattern@,
            forall|j: int| 0 <= j < i ==> !occurs_at(t@, p@, j),
        decreases t@.len() - i,
    {
        if matches_at(&t, &p, i) {
            return true;
        }
        i += 1;
    }
    let found: bool = matches_at(&t, &p, i);
    assert(forall|j: int| occurs_at(t@, p@, j) ==> 0 <= j <= i);
    found
}

/// Whether `s` starts with `prefix`.
pub open spec fn has_prefix(s: Seq<char>, prefix: Seq<char>) -> bool {
    occurs_at(s, prefix, 0)
}

/// Whether `text` starts with `prefix`.
pub fn starts_with(text: &str, prefix: &str) -> (found: bool)
    ensures
        found == has_prefix(text@, prefix@),
{
    let t: Vec<char> = chars_of(text);
    let p: Vec<char> = chars_of(prefix);
    matches_at(&t, &p, 0)
}

/// The decimal digit for a value below ten.
pub open spec fn digit_char(d: nat) -> char {
    ((d + 48) as u8) as char
}

/// A number in decimal, without leading zeros.
pub open spec fn decimal_text(n: nat) -> Seq<char>
    decreases n,
{
    if n < 10 {
        seq![digit_char(n)]
    } else {
        decimal_text(n / 10).push(digit_char(n % 10))
    }
}

/// The number in decimal, without leading zeros.
pub fn decimal(n: u64) -> (r: String)
    ensures
        r@ == decimal_text(n as nat),
    decreases n,
{
    let digit: char = ((n % 10) as u8 + 48) as char;
    let mut out: String = if n < 10 {
        String::new()
    } else {
        decimal(n / 10)
    };
    out.push(digit);
    assert(n < 10 ==> out@ =~= decimal_text(n as nat));
    out
}

/// The lines of a text. A line ends with a newline, which may follow a carriage return; neither
/// belongs to the line. What follows the last newline is a line if it is not empty.
pub open spec fn lines_of(s: Seq<char>) -> Seq<Seq<char>>
    decreases s.len(),
{
    match s.index_of_first('\n') {
        Some(k) => if 0 <= k < s.len() {
            seq![without_carriage_return(s.take(k))] + lines_of(s.skip(k + 1))
        } else {
            seq![]
        },
        None => if s.len() == 0 {
            seq![]
        } else {
            seq![s]
        },
    }
}

/// A text without one carriage return at its end.
pub open spec fn without_carriage_return(s: Seq<char>) -> Seq<char> {
    if s.len() > 0 && s.last() == '\r' {
        s.drop_last()
    } else {
        s
    }
}

/// The texts that a list of strings holds.
pub open spec fn texts(list: Seq<String>) -> Seq<Seq<char>> {
    list.map_values(|s: String| s@)
}

/// The lines of a text, without their line endings.
pub fn lines(text: &str) -> (r: Vec<String>)
    ensures
        texts(r@) == lines_of(text@),
{
    let mut out: Vec<String> = Vec::new();
    let len: usize = text.unicode_len();
    let mut start: usize = 0;
    let mut at: usize = 0;
    let mut after_return: bool = false;
    assert(texts(out@) + lines_of(text@.skip(0)) =~= lines_of(text@)) by {
        assert(text@.skip(0) =~= text@);
    }
    for c in it: text.chars()
        invariant
            it.seq() == text@,
            len == text@.len(),
            at == it.index(),
            start <= at,
            forall|j: int| start <= j < at ==> text@[j] != '\n',
            after_return == (at > start && text@[at - 1] == '\r'),
            texts(out@) + lines_of(text@.skip(start as int)) == lines_of(text@),
    {
        if c == '\n' {
            let ghost rest = text@.skip(start as int);
            let end: usize = if after_return {
                at - 1
            } else {
                at
            };
            let line: &str = text.substring_char(start, end);
            proof {
                let k = at - start;
                assert(rest[k] == '\n');
                assert(forall|j: int| 0 <= j < k ==> rest[j] != '\n');
                rest.index_of_first_ensures('\n');
                assert(rest.index_of_first('\n') == Some(k as int));
                assert(rest.skip(k + 1) =~= text@.skip(at + 1));
                assert(without_carriage_return(rest.take(k)) =~= line@);
            }
            let ghost before = texts(out@);
            out.push(line.to_string());
            assert(texts(out@) =~= before.push(line@));
            assert(before.push(line@) + lines_of(text@.skip(at + 1)) =~= before + (seq![line@]
                + lines_of(text@.skip(at + 1))));
            start = at + 1;
            after_return = false;
        } else {
            after_return = c == '\r';
        }
        at += 1;
    }
    let ghost rest = text@.skip(start as int);
    proof {
        rest.index_of_first_ensures('\n');
        assert(forall|j: int| 0 <= j < rest.len() ==> rest[j] != '\n');
    }
    if start < len {
        let line: &str = text.substring_char(start, len);
        assert(line@ =~= rest);
        let ghost before = texts(out@);
        out.push(line.to_string());
        assert(texts(out@) =~= before + seq![rest]);
    } else {
        assert(texts(out@) =~= texts(out@) + lines_of(rest));
    }
    out
}

/// What follows the last occurrence of a character in a text; the whole text where it does not
/// occur.
pub open spec fn after_last(s: Seq<char>, c: char) -> Seq<char>
    decreases s.len(),
{
    if s.len() == 0 || s.last() == c {
        seq![]
    } else {
        after_last(s.drop_last(), c).push(s.last())
    }
}

/// What follows an occurrence of a character is shorter than the text.
pub proof fn lemma_after_last_len(s: Seq<char>, c: char)
    ensures
        after_last(s, c).len() <= s.len(),
        s.contains(c) ==> after_last(s, c).len() < s.len(),
    decreases s.len(),
{
    if s.len() > 0 && s.last() != c {
        let front = s.drop_last();
        lemma_after_last_len(front, c);
        if s.contains(c) {
            let k = choose|k: int| 0 <= k < s.len() && s[k] == c;
            assert(front[k] == c);
        }
    }
}

/// The last occurrence of a character settles what follows it.
proof fn lemma_after_last(s: Seq<char>, c: char, start: int)
    requires
        0 <= start <= s.len(),
        start > 0 ==> s[start - 1] == c,
        forall|j: int| start <= j < s.len() ==> s[j] != c,
    ensures
        after_last(s, c) == s.skip(start),
    decreases s.len(),
{
    if start < s.len() {
        let front = s.drop_last();
        assert forall|j: int| start <= j < front.len() implies front[j] != c by {
            assert(s[j] != c);
        }
        assert(s[s.len() - 1] != c);
        lemma_after_last(front, c, start);
        assert(s.skip(start) =~= front.skip(start).push(s.last()));
    } else {
        assert(s.skip(start) =~= Seq::<char>::empty());
    }
}

/// Where the text behind the last occurrence of a character starts.
fn start_after_last(s: &str, c: char) -> (start: usize)
    ensures
        start <= s@.len(),
        start > 0 ==> s@[start - 1] == c,
        forall|j: int| start <= j < s@.len() ==> s@[j] != c,
{
    let mut start: usize = 0;
    let mut at: usize = 0;
    let len: usize = s.unicode_len();
    for x in it: s.chars()
        invariant
            it.seq() == s@,
            len == s@.len(),
            at == it.index(),
            start <= at,
            start > 0 ==> s@[start - 1] == c,
            forall|j: int| start <= j < at ==> s@[j] != c,
    {
        at += 1;
        if x == c {
            start = at;
        }
    }
    start
}

/// What follows the last occurrence of a character in a text.
pub fn tail_after_last<'a>(s: &'a str, c: char) -> (r: &'a str)
    ensures
        r@ == after_last(s@, c),
{
    let start: usize = start_after_last(s, c);
    let len: usize = s.unicode_len();
    proof {
        lemma_after_last(s@, c, start as int);
        assert(s@.subrange(start as int, len as int) =~= s@.skip(start as int));
    }
    s.substring_char(start, len)
}

/// Whether a character occurs in a text.
pub fn has_char(s: &str, c: char) -> (found: bool)
    ensures
        found == s@.contains(c),
{
    for x in it: s.chars()
        invariant
            it.seq() == s@,
            forall|j: int| 0 <= j < it.index() ==> s@[j] != c,
    {
        if x == c {
            assert(s@[it.index() as int] == c);
            return true;
        }
    }
    false
}

/// What follows the last separator is the part behind it.
pub proof fn the_last_part_follows_the_separator(front: Seq<char>, c: char, part: Seq<char>)
    requires
        !part.contains(c),
    ensures
        after_last(front.push(c) + part, c) == part,
        after_last(part, c) == part,
    decreases part.len(),
{
    let whole = front.push(c) + part;
    if part.len() > 0 {
        let shorter = part.drop_last();
        assert(!shorter.contains(c)) by {
            if shorter.contains(c) {
                let k = choose|k: int| 0 <= k < shorter.len() && shorter[k] == c;
                assert(part[k] == c);
            }
        }
        the_last_part_follows_the_separator(front, c, shorter);
        assert(whole.drop_last() =~= front.push(c) + shorter);
        assert(part[part.len() - 1] == part.last());
        assert(whole.last() == part.last());
        assert(shorter.push(part.last()) =~= part);
    } else {
        assert(whole.last() == c);
        assert(after_last(whole, c) =~= part);
        assert(after_last(part, c) =~= part);
    }
}

/// Trimming takes whitespace from the two ends, and nothing else: what stands around the trimmed text
/// is whitespace.
pub proof fn trimming_takes_only_whitespace(s: Seq<char>) -> (at: int)
    ensures
        0 <= at,
        at + trimmed(s).len() <= s.len(),
        trimmed(s) == s.subrange(at, at + trimmed(s).len()),
        forall|i: int| 0 <= i < at ==> is_white(#[trigger] s[i]),
        forall|i: int| at + trimmed(s).len() <= i < s.len() ==> is_white(#[trigger] s[i]),
{
    let at = lemma_start_of_trimmed(s);
    let rest = s.skip(at);
    lemma_end_of_trimmed(rest);
    let n = trimmed(s).len();
    assert(trimmed(s) =~= s.subrange(at, at + n));
    assert forall|i: int| at + n <= i < s.len() implies is_white(#[trigger] s[i]) by {
        assert(rest[i - at] == s[i]);
    }
    at
}

proof fn lemma_start_of_trimmed(s: Seq<char>) -> (at: int)
    ensures
        0 <= at <= s.len(),
        trimmed_start(s) == s.skip(at),
        forall|i: int| 0 <= i < at ==> is_white(#[trigger] s[i]),
    decreases s.len(),
{
    if s.len() > 0 && is_white(s[0]) {
        let before = lemma_start_of_trimmed(s.drop_first());
        assert(s.drop_first().skip(before) =~= s.skip(before + 1));
        assert forall|i: int| 0 <= i < before + 1 implies is_white(#[trigger] s[i]) by {
            if i > 0 {
                assert(s.drop_first()[i - 1] == s[i]);
            }
        }
        before + 1
    } else {
        assert(s.skip(0) =~= s);
        0
    }
}

proof fn lemma_end_of_trimmed(s: Seq<char>)
    ensures
        trimmed_end(s).len() <= s.len(),
        trimmed_end(s) == s.take(trimmed_end(s).len() as int),
        forall|i: int| trimmed_end(s).len() <= i < s.len() ==> is_white(#[trigger] s[i]),
    decreases s.len(),
{
    if s.len() > 0 && is_white(s.last()) {
        let front = s.drop_last();
        lemma_end_of_trimmed(front);
        let n = trimmed_end(s).len() as int;
        assert(front.take(n) =~= s.take(n));
        assert forall|i: int| n <= i < s.len() implies is_white(#[trigger] s[i]) by {
            if i < front.len() {
                assert(front[i] == s[i]);
            }
        }
    } else {
        assert(s.take(s.len() as int) =~= s);
    }
}

/// Of the ASCII characters the blank and those from the tab to the carriage return are whitespace.
pub proof fn ascii_whitespace(c: char)
    requires
        c as u32 <= 127,
    ensures
        is_white(c) <==> c == ' ' || c == '\t' || c == '\n' || c == '\r' || c as u32 == 11
            || c as u32 == 12,
{
}

/// Lower case changes the letters from `A` to `Z` and no other character, and it changes each of them
/// to its counterpart; nothing is left to change then.
pub proof fn lower_case_changes_capitals_only(s: Seq<char>, i: int)
    requires
        0 <= i < s.len(),
    ensures
        lower_ascii(s).len() == s.len(),
        'A' <= s[i] <= 'Z' ==> lower_ascii(s)[i] as int == s[i] as int + 32,
        !('A' <= s[i] <= 'Z') ==> lower_ascii(s)[i] == s[i],
        lower_ascii(lower_ascii(s)) == lower_ascii(s),
{
    assert forall|k: int| 0 <= k < s.len() implies lower_ascii(lower_ascii(s))[k] == lower_ascii(
        s,
    )[k] by {
        let c = s[k];
        if 'A' <= c <= 'Z' {
            assert((c as u8) as int == c as int);
        }
    }
    assert(lower_ascii(lower_ascii(s)) =~= lower_ascii(s));
}

/// The number that a text of decimal digits stands for.
pub open spec fn value_of_digits(s: Seq<char>) -> int
    decreases s.len(),
{
    if s.len() == 0 {
        0
    } else {
        value_of_digits(s.drop_last()) * 10 + (s.last() as int - '0' as int)
    }
}

/// A number in decimal is made of digits, stands for that number, and does not start with a zero
/// unless it is zero.
pub proof fn decimals_are_read_back(n: nat)
    ensures
        decimal_text(n).len() > 0,
        forall|i: int|
            0 <= i < decimal_text(n).len() ==> '0' <= #[trigger] decimal_text(n)[i] <= '9',
        value_of_digits(decimal_text(n)) == n,
        n > 0 ==> decimal_text(n)[0] != '0',
    decreases n,
{
    let s = decimal_text(n);
    if n < 10 {
        reveal_with_fuel(value_of_digits, 2);
        assert(s.drop_last() =~= Seq::<char>::empty());
    } else {
        decimals_are_read_back(n / 10);
        assert(s.drop_last() =~= decimal_text(n / 10));
        assert forall|i: int| 0 <= i < s.len() implies '0' <= #[trigger] s[i] <= '9' by {
            if i < s.len() - 1 {
                assert(s[i] == decimal_text(n / 10)[i]);
            }
        }
        assert(s[0] == decimal_text(n / 10)[0]);
    }
}

/// A text falls into lines at its newlines. A carriage return in front of a newline is part of the
/// line ending, and the last line needs none.
pub proof fn lines_end_at_newlines(line: Seq<char>, rest: Seq<char>)
    requires
        !line.contains('\n'),
    ensures
        line.len() == 0 || line.last() != '\r' ==> lines_of(line.push('\n') + rest) == seq![line]
            + lines_of(rest),
        lines_of(line.push('\r').push('\n') + rest) == seq![line] + lines_of(rest),
        line.len() > 0 ==> lines_of(line) == seq![line],
        lines_of(seq![]).len() == 0,
{
    let plain = line.push('\n') + rest;
    let long = line.push('\r').push('\n') + rest;
    let n = line.len() as int;
    line.index_of_first_ensures('\n');
    plain.index_of_first_ensures('\n');
    long.index_of_first_ensures('\n');
    let none: Seq<char> = seq![];
    none.index_of_first_ensures('\n');
    assert(plain[n] == '\n');
    assert(long[n + 1] == '\n');
    assert forall|i: int| 0 <= i < n implies plain[i] != '\n' && long[i] != '\n' by {
        assert(line.contains(line[i]));
    }
    assert(plain.index_of_first('\n') == Some(n));
    assert(long.index_of_first('\n') == Some(n + 1));
    assert(plain.take(n) =~= line);
    assert(plain.skip(n + 1) =~= rest);
    assert(long.take(n + 1) =~= line.push('\r'));
    assert(line.push('\r').drop_last() =~= line);
    assert(long.skip(n + 2) =~= rest);
}

} // verus!
