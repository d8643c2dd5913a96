//! Reading numbers, fields and lists out of text.

use crate::text::{exactly32, hex_bytes, hex_decode, is_hex};
use vstd::prelude::*;
use vstd::string::*;

verus! {

/// The characters of a text.
pub fn chars_of(text: &str) -> (chars: Vec<char>)
    ensures
        chars@ == text@,
{
    let mut chars: Vec<char> = Vec::new();
    for c in it: text.chars()
        invariant
            it.seq() == text@,
            chars@ == text@.take(it.index() as int),
    {
        chars.push(c);
        assert(chars@ =~= text@.take(it.index() as int + 1));
    }
    assert(chars@ =~= text@);
    chars
}

/// The text of the characters from `from` up to `to`.
pub fn text_between(chars: &[char], from: usize, to: usize) -> (text: String)
    requires
        from <= to <= chars@.len(),
    ensures
        text@ == chars@.subrange(from as int, to as int),
{
    let mut text = String::new();
    let mut i: usize = from;
    assert(text@ =~= chars@.subrange(from as int, from as int));
    while i < to
        invariant
            from <= i <= to <= chars@.len(),
            text@ == chars@.subrange(from as int, i as int),
        decreases to - i,
    {
        text.push(chars[i]);
        i = i + 1;
        assert(text@ =~= chars@.subrange(from as int, i as int));
    }
    text
}

/// Whether two texts are the same.
pub fn same_text(a: &str, b: &str) -> (same: bool)
    ensures
        same == (a@ == b@),
{
    let x = String::from_str(a);
    let y = String::from_str(b);
    x == y
}

/// The white space of Unicode.
pub open spec fn is_space(c: char) -> bool {
    let n = c as u32;
    ||| 0x9 <= n <= 0xd
    ||| n == 0x20
    ||| n == 0x85
    ||| n == 0xa0
    ||| n == 0x1680
    ||| 0x2000 <= n <= 0x200a
    ||| n == 0x2028
    ||| n == 0x2029
    ||| n == 0x202f
    ||| n == 0x205f
    ||| n == 0x3000
}

fn space(c: char) -> (yes: bool)
    ensures
        yes == is_space(c),
{
    let n: u32 = c as u32;
    (0x9 <= n && n <= 0xd) || n == 0x20 || n == 0x85 || n == 0xa0 || n == 0x1680 || (0x2000 <= n
        && n <= 0x200a) || n == 0x2028 || n == 0x2029 || n == 0x202f || n == 0x205f || n == 0x3000
}

/// A text without the white space at its start.
pub open spec fn trimmed_start(s: Seq<char>) -> Seq<char>
    decreases s.len(),
{
    if s.len() > 0 && is_space(s[0]) {
        trimmed_start(s.skip(1))
    } else {
        s
    }
}

/// A text without the white space at its end.
pub open spec fn trimmed_end(s: Seq<char>) -> Seq<char>
    decreases s.len(),
{
    if s.len() > 0 && is_space(s.last()) {
        trimmed_end(s.drop_last())
    } else {
        s
    }
}

/// A text without the white space at both ends.
pub open spec fn trimmed(s: Seq<char>) -> Seq<char> {
    trimmed_end(trimmed_start(s))
}

/// Takes the white space off both ends.
pub fn trim(text: &str) -> (t: String)
    ensures
        t@ == trimmed(text@),
{
    let chars = chars_of(text);
    let mut from: usize = 0;
    assert(chars@.skip(0) =~= chars@);
    while from < chars.len() && space(chars[from])
        invariant
            from <= chars@.len(),
            trimmed_start(chars@) == trimmed_start(chars@.skip(from as int)),
        decreases chars@.len() - from,
    {
        assert(chars@.skip(from as int).skip(1) =~= chars@.skip(from + 1));
        from = from + 1;
    }
    let ghost rest = chars@.skip(from as int);
    let mut to: usize = chars.len();
    assert(rest =~= chars@.subrange(from as int, to as int));
    while to > from && space(chars[to - 1])
        invariant
            from <= to <= chars@.len(),
            trimmed_end(rest) == trimmed_end(chars@.subrange(from as int, to as int)),
        decreases to,
    {
        let ghost now = chars@.subrange(from as int, to as int);
        assert(now.last() == chars@[to - 1]);
        assert(now.drop_last() =~= chars@.subrange(from as int, to - 1));
        to = to - 1;
    }
    let ghost kept = chars@.subrange(from as int, to as int);
    assert(kept.len() > 0 ==> kept.last() == chars@[to - 1]);
    text_between(chars.as_slice(), from, to)
}

/// How long the word is that a text starts with.
pub open spec fn word_len(s: Seq<char>) -> nat
    decreases s.len(),
{
    if s.len() == 0 || is_space(s[0]) {
        0
    } else {
        1 + word_len(s.skip(1))
    }
}

/// The first word of a text, and what follows it.
pub open spec fn next_word(s: Seq<char>) -> Option<(Seq<char>, Seq<char>)> {
    let t = trimmed_start(s);
    if t.len() == 0 {
        None
    } else {
        Some((t.take(word_len(t) as int), t.skip(word_len(t) as int)))
    }
}

fn word_at(chars: &[char], from: usize) -> (at: (usize, usize))
    requires
        from <= chars@.len(),
    ensures
        from <= at.0 <= at.1 <= chars@.len(),
        trimmed_start(chars@.skip(from as int)) == chars@.skip(at.0 as int),
        at.1 == at.0 + word_len(chars@.skip(at.0 as int)),
{
    let mut start: usize = from;
    while start < chars.len() && space(chars[start])
        invariant
            from <= start <= chars@.len(),
            trimmed_start(chars@.skip(from as int)) == trimmed_start(chars@.skip(start as int)),
        decreases chars@.len() - start,
    {
        assert(chars@.skip(start as int).skip(1) =~= chars@.skip(start + 1));
        start = start + 1;
    }
    let mut end: usize = start;
    while end < chars.len() && !space(chars[end])
        invariant
            start <= end <= chars@.len(),
            word_len(chars@.skip(start as int)) == end - start + word_len(chars@.skip(end as int)),
        decreases chars@.len() - end,
    {
        assert(chars@.skip(end as int).skip(1) =~= chars@.skip(end + 1));
        end = end + 1;
    }
    (start, end)
}

/// The second word of a text.
pub open spec fn second_word(s: Seq<char>) -> Option<Seq<char>> {
    match next_word(s) {
        Some((_, rest)) => match next_word(rest) {
            Some((word, _)) => Some(word),
            None => None,
        },
        None => None,
    }
}

/// Finds the second word of a text.
pub fn word_after_first(text: &str) -> (word: Option<String>)
    ensures
        match word {
            Some(w) => second_word(text@) == Some(w@),
            None => second_word(text@) is None,
        },
{
    let chars = chars_of(text);
    assert(chars@.skip(0) =~= chars@);
    let (a, b) = word_at(chars.as_slice(), 0);
    if a == chars.len() {
        return None;
    }
    assert(chars@.skip(a as int).skip(b - a) =~= chars@.skip(b as int));
    let (c, d) = word_at(chars.as_slice(), b);
    if c == chars.len() {
        return None;
    }
    let word = text_between(chars.as_slice(), c, d);
    assert(word@ =~= chars@.skip(c as int).take(d - c));
    Some(word)
}

/// Where a character first stands, the length where it does not.
pub open spec fn first_at(s: Seq<char>, c: char) -> nat
    decreases s.len(),
{
    if s.len() == 0 || s[0] == c {
        0
    } else {
        1 + first_at(s.skip(1), c)
    }
}

proof fn lemma_first_at(s: Seq<char>, c: char, i: int)
    requires
        0 <= i <= s.len(),
        forall|j: int| 0 <= j < i ==> s[j] != c,
    ensures
        first_at(s, c) == i + first_at(s.skip(i), c),
    decreases i,
{
    if i == 0 {
        assert(s.skip(0) =~= s);
    } else {
        assert(s[0] != c);
        assert forall|j: int| 0 <= j < i - 1 implies s.skip(1)[j] != c by {
            assert(s[j + 1] != c);
        }
        lemma_first_at(s.skip(1), c, i - 1);
        assert(s.skip(1).skip(i - 1) =~= s.skip(i));
    }
}

/// Where a character first stands from `from` on, the length where it does not.
pub fn find_char(chars: &[char], from: usize, c: char) -> (at: usize)
    requires
        from <= chars@.len(),
    ensures
        from <= at <= chars@.len(),
        at == from + first_at(chars@.skip(from as int), c),
        at < chars@.len() ==> chars@[at as int] == c,
        forall|j: int| from <= j < at ==> chars@[j] != c,
{
    let mut at: usize = from;
    while at < chars.len() && chars[at] != c
        invariant
            from <= at <= chars@.len(),
            forall|j: int| from <= j < at ==> chars@[j] != c,
        decreases chars@.len() - at,
    {
        at = at + 1;
    }
    proof {
        let rest = chars@.skip(from as int);
        assert forall|j: int| 0 <= j < at - from implies rest[j] != c by {
            assert(chars@[from + j] != c);
        }
        lemma_first_at(rest, c, at - from);
        assert(rest.skip(at - from) =~= chars@.skip(at as int));
        if at < chars@.len() {
            assert(chars@.skip(at as int)[0] == c);
        }
    }
    at
}

/// The two parts of a text round the first `c`, where there is one.
pub open spec fn split_at_first(s: Seq<char>, c: char) -> Option<(Seq<char>, Seq<char>)> {
    let i = first_at(s, c) as int;
    if i < s.len() {
        Some((s.take(i), s.skip(i + 1)))
    } else {
        None
    }
}

/// Splits a text at the first `c`.
pub fn split_once(text: &str, c: char) -> (parts: Option<(String, String)>)
    ensures
        match parts {
            Some((a, b)) => split_at_first(text@, c) == Some((a@, b@)),
            None => split_at_first(text@, c) is None,
        },
{
    let chars = chars_of(text);
    assert(chars@.skip(0) =~= chars@);
    let at: usize = find_char(chars.as_slice(), 0, c);
    if at < chars.len() {
        let a = text_between(chars.as_slice(), 0, at);
        let b = text_between(chars.as_slice(), at + 1, chars.len());
        assert(a@ =~= text@.take(at as int));
        assert(b@ =~= text@.skip(at + 1));
        Some((a, b))
    } else {
        None
    }
}

/// The parts of a text between the occurrences of `c`.
pub open spec fn split_all(s: Seq<char>, c: char) -> Seq<Seq<char>>
    decreases s.len(),
{
    match split_at_first(s, c) {
        Some((a, b)) => seq![a] + split_all(b, c),
        None => seq![s],
    }
}

/// The views of texts.
pub open spec fn views(v: Seq<String>) -> Seq<Seq<char>> {
    v.map_values(|s: String| s@)
}

/// Splits a text at every `c`.
pub fn split(text: &str, c: char) -> (parts: Vec<String>)
    ensures
        views(parts@) == split_all(text@, c),
{
    let chars = chars_of(text);
    let mut parts: Vec<String> = Vec::new();
    let mut from: usize = 0;
    assert(chars@.skip(0) =~= chars@);
    assert(views(parts@) + split_all(chars@.skip(0), c) =~= split_all(chars@, c));
    loop
        invariant_except_break
            from <= chars@.len(),
            chars@ == text@,
            views(parts@) + split_all(chars@.skip(from as int), c) == split_all(chars@, c),
        ensures
            views(parts@) == split_all(text@, c),
        decreases chars@.len() - from,
    {
        let at: usize = find_char(chars.as_slice(), from, c);
        let ghost rest = chars@.skip(from as int);
        let part = text_between(chars.as_slice(), from, at);
        let ghost before = views(parts@);
        let ghost p = part@;
        parts.push(part);
        assert(views(parts@) =~= before.push(p));
        assert(p =~= rest.take(at - from));
        if at >= chars.len() {
            assert(p =~= rest);
            assert(split_all(rest, c) =~= seq![rest]);
            assert(before.push(p) =~= before + seq![rest]);
            break;
        }
        proof {
            assert(rest.skip(at - from + 1) =~= chars@.skip(at + 1));
            assert(split_all(rest, c) == seq![p] + split_all(chars@.skip(at + 1), c));
            assert(before + (seq![p] + split_all(chars@.skip(at + 1), c)) =~= before.push(p)
                + split_all(chars@.skip(at + 1), c));
        }
        from = at + 1;
    }
    parts
}

/// Whether the text is digits, and at least one.
pub open spec fn is_digits(s: Seq<char>) -> bool {
    s.len() > 0 && forall|i: int| 0 <= i < s.len() ==> '0' <= #[trigger] s[i] <= '9'
}

/// The number that digits spell.
pub open spec fn digits_value(s: Seq<char>) -> nat
    decreases s.len(),
{
    if s.len() == 0 {
        0
    } else {
        10 * digits_value(s.drop_last()) + (s.last() as nat - 48) as nat
    }
}

proof fn lemma_value_grows(s: Seq<char>, i: int)
    requires
        0 <= i <= s.len(),
    ensures
        digits_value(s.take(i)) <= digits_value(s),
    decreases s.len(),
{
    if i == s.len() {
        assert(s.take(i) =~= s);
    } else {
        lemma_value_grows(s.drop_last(), i);
        assert(s.drop_last().take(i) =~= s.take(i));
    }
}

/// The number that digits from `from` on spell, up to `max`; nothing for any other text.
fn digits_from(chars: &[char], from: usize, max: u64) -> (n: Option<u64>)
    requires
        from <= chars@.len(),
    ensures
        ({
            let s = chars@.skip(from as int);
            match n {
                Some(n) => is_digits(s) && digits_value(s) == n && n <= max,
                None => !is_digits(s) || digits_value(s) > max,
            }
        }),
{
    let ghost s = chars@.skip(from as int);
    if from == chars.len() {
        return None;
    }
    let mut n: u64 = 0;
    let mut i: usize = from;
    assert(s.take(0) =~= Seq::<char>::empty());
    while i < chars.len()
        invariant
            from <= i <= chars@.len(),
            s == chars@.skip(from as int),
            n <= max,
            n == digits_value(s.take(i - from)),
            forall|j: int| 0 <= j < i - from ==> '0' <= #[trigger] s[j] <= '9',
        decreases chars@.len() - i,
    {
        let c = chars[i];
        proof {
            assert(s[i - from] == c);
            let next = s.take(i - from + 1);
            assert(next.drop_last() =~= s.take(i - from));
            assert(next.last() == c);
            lemma_value_grows(s, i - from + 1);
        }
        if c < '0' || c > '9' {
            return None;
        }
        let d: u64 = (c as u32 - 48) as u64;
        if d > max || n > max / 10 || n * 10 > max - d {
            proof {
                assert(digits_value(s.take(i - from + 1)) == 10 * n + d);
                if n > max / 10 {
                    assert(10 * n > max);
                }
            }
            return None;
        }
        n = n * 10 + d;
        i = i + 1;
    }
    assert(s.take(i - from) =~= s);
    Some(n)
}

/// The text without one leading plus sign.
pub open spec fn unsigned_part(s: Seq<char>) -> Seq<char> {
    if s.len() > 0 && s[0] == '+' {
        s.skip(1)
    } else {
        s
    }
}

/// The number that a text spells in decimal, with or without a plus sign, where it is below
/// `2^64`.
pub open spec fn u64_of(s: Seq<char>) -> Option<u64> {
    let d = unsigned_part(s);
    if is_digits(d) && digits_value(d) <= u64::MAX {
        Some(digits_value(d) as u64)
    } else {
        None
    }
}

/// Reads a number.
pub fn parse_u64(text: &str) -> (n: Option<u64>)
    ensures
        n == u64_of(text@),
{
    let chars = chars_of(text);
    assert(chars@.skip(0) =~= chars@);
    if chars.len() > 0 && chars[0] == '+' {
        digits_from(chars.as_slice(), 1, u64::MAX)
    } else {
        digits_from(chars.as_slice(), 0, u64::MAX)
    }
}

/// The number that a text spells in decimal, with or without a sign, where it is one of 64
/// bits.
pub open spec fn i64_of(s: Seq<char>) -> Option<i64> {
    if s.len() > 0 && s[0] == '-' {
        let d = s.skip(1);
        if is_digits(d) && digits_value(d) <= 0x8000_0000_0000_0000 {
            Some((-(digits_value(d) as int)) as i64)
        } else {
            None
        }
    } else {
        let d = unsigned_part(s);
        if is_digits(d) && digits_value(d) <= i64::MAX {
            Some(digits_value(d) as i64)
        } else {
            None
        }
    }
}

/// Reads a signed number.
pub fn parse_i64(text: &str) -> (n: Option<i64>)
    ensures
        n == i64_of(text@),
{
    let chars = chars_of(text);
    assert(chars@.skip(0) =~= chars@);
    if chars.len() > 0 && chars[0] == '-' {
        match digits_from(chars.as_slice(), 1, 0x8000_0000_0000_0000) {
            Some(n) => {
                if n == 0x8000_0000_0000_0000 {
                    Some(i64::MIN)
                } else {
                    Some(-(n as i64))
                }
            },
            None => None,
        }
    } else {
        let from: usize = if chars.len() > 0 && chars[0] == '+' {
            1
        } else {
            0
        };
        match digits_from(chars.as_slice(), from, 0x7fff_ffff_ffff_ffff) {
            Some(n) => Some(n as i64),
            None => None,
        }
    }
}

/// Whether the text is the hexadecimal form of 32 bytes.
pub open spec fn is_hex32(s: Seq<char>) -> bool {
    is_hex(s) && s.len() == 64
}

/// Reads 32 bytes from their hexadecimal form.
pub fn parse32(text: &str) -> (array: Option<[u8; 32]>)
    ensures
        match array {
            Some(a) => is_hex32(text@) && a@ == hex_bytes(text@),
            None => !is_hex32(text@),
        },
{
    match hex_decode(text) {
        Some(bytes) => exactly32(bytes.as_slice()),
        None => None,
    }
}

/// Blanks, tabs and line ends are blank; no visible ASCII character is.
pub proof fn law_blanks_are_not_visible(c: char)
    ensures
        is_space(' '),
        is_space('\t'),
        is_space('\n'),
        is_space('\r'),
        '!' <= c <= '~' ==> !is_space(c),
        'a' <= c <= 'z' || '0' <= c <= '9' ==> !is_space(c),
{
}

proof fn lemma_trimmed_start(s: Seq<char>) -> (n: int)
    ensures
        0 <= n <= s.len(),
        trimmed_start(s) == s.skip(n),
        forall|i: int| 0 <= i < n ==> is_space(#[trigger] s[i]),
        n < s.len() ==> !is_space(s[n]),
    decreases s.len(),
{
    if s.len() > 0 && is_space(s[0]) {
        let t = s.skip(1);
        let m = lemma_trimmed_start(t);
        assert(t.skip(m) =~= s.skip(m + 1));
        assert forall|i: int| 0 <= i < m + 1 implies is_space(#[trigger] s[i]) by {
            if i > 0 {
                assert(is_space(t[i - 1]));
            }
        }
        if m < t.len() {
            assert(s[m + 1] == t[m]);
        }
        m + 1
    } else {
        assert(s.skip(0) =~= s);
        0
    }
}

proof fn lemma_trimmed_end(s: Seq<char>) -> (n: int)
    ensures
        0 <= n <= s.len(),
        trimmed_end(s) == s.take(n),
        forall|i: int| n <= i < s.len() ==> is_space(#[trigger] s[i]),
        n > 0 ==> !is_space(s[n - 1]),
    decreases s.len(),
{
    if s.len() > 0 && is_space(s.last()) {
        let t = s.drop_last();
        let m = lemma_trimmed_end(t);
        assert(t.take(m) =~= s.take(m));
        assert forall|i: int| m <= i < s.len() implies is_space(#[trigger] s[i]) by {
            if i < t.len() {
                assert(is_space(t[i]));
            }
        }
        m
    } else {
        assert(s.take(s.len() as int) =~= s);
        s.len() as int
    }
}

/// Trimming takes blanks off both ends, all of them, and nothing else.
pub proof fn law_trimming_takes_blanks_only(s: Seq<char>)
    ensures
        exists|a: int, b: int|
            {
                &&& 0 <= a <= b <= s.len()
                &&& trimmed(s) == #[trigger] s.subrange(a, b)
                &&& forall|i: int| 0 <= i < a || b <= i < s.len() ==> is_space(#[trigger] s[i])
            },
        trimmed(s).len() > 0 ==> !is_space(trimmed(s)[0]) && !is_space(trimmed(s).last()),
{
    let a = lemma_trimmed_start(s);
    let t = s.skip(a);
    let n = lemma_trimmed_end(t);
    let b = a + n;
    assert(t.take(n) =~= s.subrange(a, b));
    assert forall|i: int| 0 <= i < a || b <= i < s.len() implies is_space(#[trigger] s[i]) by {
        if i >= b {
            assert(is_space(t[i - a]));
        }
    }
    if n > 0 {
        assert(t[n - 1] == trimmed(s).last());
        assert(trimmed(s)[0] == s[a]);
    }
}

/// A text is parted at the first place of the character: what stands before does not hold it, and
/// the parts with the character between make up the text. It is not parted where it has none.
pub proof fn law_texts_part_at_the_first_place(s: Seq<char>, c: char)
    ensures
        split_at_first(s, c) is None <==> !s.contains(c),
        split_at_first(s, c) matches Some((a, b)) ==> s == a + seq![c] + b && !a.contains(c),
{
    let i = lemma_first_place(s, c);
    if i < s.len() {
        assert(s.contains(s[i]));
        assert(s =~= s.take(i) + seq![c] + s.skip(i + 1));
        if s.take(i).contains(c) {
            let j = choose|j: int| 0 <= j < i && s.take(i)[j] == c;
            assert(s[j] == c);
        }
    } else if s.contains(c) {
        let j = choose|j: int| 0 <= j < s.len() && s[j] == c;
        assert(s[j] == c);
    }
}

proof fn lemma_first_place(s: Seq<char>, c: char) -> (i: int)
    ensures
        i == first_at(s, c),
        0 <= i <= s.len(),
        forall|j: int| 0 <= j < i ==> s[j] != c,
        i < s.len() ==> s[i] == c,
    decreases s.len(),
{
    if s.len() == 0 || s[0] == c {
        0
    } else {
        let t = s.skip(1);
        let i = lemma_first_place(t, c);
        assert forall|j: int| 0 <= j < i + 1 implies s[j] != c by {
            if j > 0 {
                assert(t[j - 1] != c);
            }
        }
        if i < t.len() {
            assert(s[i + 1] == t[i]);
        }
        i + 1
    }
}

/// Joining two parts by a character that the first does not hold, and parting them again, gives
/// the parts back.
pub proof fn law_parted_texts_read_back(a: Seq<char>, b: Seq<char>, c: char)
    requires
        !a.contains(c),
    ensures
        split_at_first(a + seq![c] + b, c) == Some((a, b)),
        split_all(a + seq![c] + b, c) == seq![a] + split_all(b, c),
        split_all(a, c) == seq![a],
{
    let s = a + seq![c] + b;
    assert forall|j: int| 0 <= j < a.len() implies s[j] != c by {
        assert(a.contains(a[j]));
    }
    lemma_first_at(s, c, a.len() as int);
    assert(s.skip(a.len() as int)[0] == c);
    assert(s.take(a.len() as int) =~= a);
    assert(s.skip(a.len() as int + 1) =~= b);
    law_texts_part_at_the_first_place(a, c);
}

/// A number reads back from its decimal text, with or without a sign, as far as it fits.
pub proof fn law_numbers_read_back(n: nat)
    ensures
        is_digits(crate::text::decimal(n)),
        digits_value(crate::text::decimal(n)) == n,
        n <= u64::MAX ==> u64_of(crate::text::decimal(n)) == Some(n as u64),
        n <= u64::MAX ==> u64_of(seq!['+'] + crate::text::decimal(n)) == Some(n as u64),
        n > u64::MAX ==> u64_of(crate::text::decimal(n)) is None,
        u64_of(seq!['-'] + crate::text::decimal(n)) is None,
        n <= i64::MAX ==> i64_of(crate::text::decimal(n)) == Some(n as i64),
        n <= 0x8000_0000_0000_0000 ==> (i64_of(seq!['-'] + crate::text::decimal(n)) matches Some(v)
            && v == -(n as int)),
        n > 0x8000_0000_0000_0000 ==> i64_of(crate::text::decimal(n)) is None && i64_of(
            seq!['-'] + crate::text::decimal(n),
        ) is None,
{
    let d = crate::text::decimal(n);
    crate::text::lemma_decimal_digits(n);
    lemma_decimal_value(n);
    assert((seq!['+'] + d).skip(1) =~= d);
    assert((seq!['-'] + d).skip(1) =~= d);
    assert((seq!['-'] + d)[0] == '-');
    assert((seq!['+'] + d)[0] == '+');
    assert('0' <= d[0] <= '9');
    let m = seq!['-'] + d;
    assert(unsigned_part(m) == m);
    assert(!('0' <= m[0] <= '9'));
    assert(!is_digits(m));
}

proof fn lemma_decimal_value(n: nat)
    ensures
        digits_value(crate::text::decimal(n)) == n,
    decreases n,
{
    let d = crate::text::decimal(n);
    if n < 10 {
        assert(d.drop_last() =~= Seq::empty());
        assert(digits_value(Seq::empty()) == 0);
        assert(d.last() as nat == 48 + n);
    } else {
        lemma_decimal_value(n / 10);
        assert(d.drop_last() =~= crate::text::decimal(n / 10));
        assert(d.last() as nat == 48 + n % 10);
    }
}

/// Only a text of digits, after a sign perhaps, is a number.
pub proof fn law_only_digits_are_numbers(s: Seq<char>, i: int)
    requires
        0 <= i < s.len(),
        !('0' <= s[i] <= '9'),
        i > 0 || (s[i] != '+' && s[i] != '-'),
    ensures
        u64_of(s) is None,
        i64_of(s) is None,
        u64_of(Seq::empty()) is None,
        i64_of(Seq::empty()) is None,
{
    let d = s.skip(1);
    assert(i > 0 ==> d[i - 1] == s[i]);
    assert(!is_digits(s));
    assert(i > 0 ==> !is_digits(d));
}

proof fn lemma_word(t: Seq<char>, w: Seq<char>, rest: Seq<char>)
    requires
        t == w + rest,
        forall|i: int| 0 <= i < w.len() ==> !is_space(#[trigger] w[i]),
        rest.len() > 0 ==> is_space(rest[0]),
    ensures
        word_len(t) == w.len(),
    decreases w.len(),
{
    if w.len() > 0 {
        assert(t[0] == w[0]);
        assert(t.skip(1) =~= w.skip(1) + rest);
        assert forall|i: int| 0 <= i < w.skip(1).len() implies !is_space(
            #[trigger] w.skip(1)[i],
        ) by {
            assert(!is_space(w[i + 1]));
        }
        lemma_word(t.skip(1), w.skip(1), rest);
    } else {
        assert(t =~= rest);
    }
}

proof fn lemma_skip_blanks(a: Seq<char>, t: Seq<char>)
    requires
        forall|i: int| 0 <= i < a.len() ==> is_space(#[trigger] a[i]),
        t.len() > 0 ==> !is_space(t[0]),
    ensures
        trimmed_start(a + t) == t,
    decreases a.len(),
{
    let s = a + t;
    if a.len() > 0 {
        assert(s[0] == a[0]);
        assert(s.skip(1) =~= a.skip(1) + t);
        assert forall|i: int| 0 <= i < a.skip(1).len() implies is_space(#[trigger] a.skip(1)[i]) by {
            assert(is_space(a[i + 1]));
        }
        lemma_skip_blanks(a.skip(1), t);
    } else {
        assert(s =~= t);
    }
}

/// The second word of a line is found behind the first, whatever blanks stand around.
pub proof fn law_the_second_word_is_found(
    lead: Seq<char>,
    first: Seq<char>,
    gap: Seq<char>,
    second: Seq<char>,
    rest: Seq<char>,
)
    requires
        first.len() > 0,
        second.len() > 0,
        gap.len() > 0,
        forall|i: int| 0 <= i < lead.len() ==> is_space(#[trigger] lead[i]),
        forall|i: int| 0 <= i < gap.len() ==> is_space(#[trigger] gap[i]),
        forall|i: int| 0 <= i < first.len() ==> !is_space(#[trigger] first[i]),
        forall|i: int| 0 <= i < second.len() ==> !is_space(#[trigger] second[i]),
        rest.len() > 0 ==> is_space(rest[0]),
    ensures
        second_word(lead + (first + (gap + (second + rest)))) == Some(second),
{
    let tail = second + rest;
    let mid = gap + tail;
    let t = first + mid;
    assert(first[0] == t[0]);
    lemma_skip_blanks(lead, t);
    assert(mid[0] == gap[0]);
    lemma_word(t, first, mid);
    assert(t.skip(first.len() as int) =~= mid);
    assert(tail[0] == second[0]);
    lemma_skip_blanks(gap, tail);
    lemma_word(tail, second, rest);
    assert(tail.take(second.len() as int) =~= second);
}

/// A text without blanks at its ends stays as it is.
pub proof fn law_trimming_leaves_the_rest(s: Seq<char>)
    requires
        s.len() > 0 ==> !is_space(s[0]) && !is_space(s.last()),
    ensures
        trimmed(s) == s,
{
}

proof fn lemma_drop_blanks(s: Seq<char>, b: Seq<char>)
    requires
        forall|i: int| 0 <= i < b.len() ==> is_space(#[trigger] b[i]),
        s.len() > 0 ==> !is_space(s.last()),
    ensures
        trimmed_end(s + b) == s,
    decreases b.len(),
{
    let t = s + b;
    if b.len() > 0 {
        assert(t.last() == b[b.len() - 1]);
        assert(t.drop_last() =~= s + b.drop_last());
        assert forall|i: int| 0 <= i < b.drop_last().len() implies is_space(
            #[trigger] b.drop_last()[i],
        ) by {
            assert(is_space(b[i]));
        }
        lemma_drop_blanks(s, b.drop_last());
    } else {
        assert(t =~= s);
    }
}

/// Blanks around a text come off, however many there are.
pub proof fn law_blanks_around_come_off(a: Seq<char>, s: Seq<char>, b: Seq<char>)
    requires
        s.len() > 0,
        !is_space(s[0]),
        !is_space(s.last()),
        forall|i: int| 0 <= i < a.len() ==> is_space(#[trigger] a[i]),
        forall|i: int| 0 <= i < b.len() ==> is_space(#[trigger] b[i]),
    ensures
        trimmed(a + (s + b)) == s,
{
    assert((s + b)[0] == s[0]);
    lemma_skip_blanks(a, s + b);
    lemma_drop_blanks(s, b);
}

} // verus!
