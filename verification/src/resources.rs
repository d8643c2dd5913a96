//! The memory that the node may use and does use, and what it takes on under pressure.

use crate::parse::{
    chars_of, parse_u64, second_word, split, split_all, text_between, trim, trimmed, u64_of, views,
    word_after_first,
};
use vstd::prelude::*;
use vstd::string::*;

verus! {

/// The bytes of a page of memory.
pub const PAGE_BYTES: u64 = 4096;

/// How many of the offered pieces are taken on: none when memory is critical; when it is high,
/// one that is needed for durability; otherwise as many as one offer may bring.
pub fn grant(
    critical: bool,
    high: bool,
    durability_critical: bool,
    items: usize,
    max_per_offer: usize,
) -> (granted: usize)
    ensures
        granted == (if critical {
            0
        } else if high {
            if durability_critical && items > 0 {
                1
            } else {
                0
            }
        } else if items < max_per_offer {
            items
        } else {
            max_per_offer
        }),
{
    if critical {
        0
    } else if high {
        if durability_critical && items > 0 {
            1
        } else {
            0
        }
    } else if items < max_per_offer {
        items
    } else {
        max_per_offer
    }
}

/// A line of the group file that names the group, and what it names.
pub open spec fn group_line(line: Seq<char>) -> Option<Seq<char>> {
    if line.len() >= 3 && line[0] == '0' && line[1] == ':' && line[2] == ':' {
        Some(trimmed(line.skip(3)))
    } else {
        None
    }
}

/// The first group that the lines name.
pub open spec fn group_of(lines: Seq<Seq<char>>) -> Option<Seq<char>>
    decreases lines.len(),
{
    if lines.len() == 0 {
        None
    } else if group_line(lines[0]) is Some {
        group_line(lines[0])
    } else {
        group_of(lines.skip(1))
    }
}

/// The control group of the process, out of the text of its group file.
pub fn cgroup_path(text: &str) -> (path: Option<String>)
    ensures
        match path {
            Some(p) => group_of(split_all(text@, '\n')) == Some(p@),
            None => group_of(split_all(text@, '\n')) is None,
        },
{
    let lines = split(text, '\n');
    let ghost all = views(lines@);
    let mut i: usize = 0;
    assert(all.skip(0) =~= all);
    while i < lines.len()
        invariant
            i <= lines@.len(),
            all == views(lines@),
            all == split_all(text@, '\n'),
            group_of(all) == group_of(all.skip(i as int)),
        decreases lines@.len() - i,
    {
        assert(all.skip(i as int)[0] == lines@[i as int]@);
        assert(all.skip(i as int).skip(1) =~= all.skip(i + 1));
        let chars = chars_of(lines[i].as_str());
        if chars.len() >= 3 && chars[0] == '0' && chars[1] == ':' && chars[2] == ':' {
            let rest = text_between(chars.as_slice(), 3, chars.len());
            assert(rest@ =~= chars@.skip(3));
            return Some(trim(rest.as_str()));
        }
        i = i + 1;
    }
    None
}

/// The file that holds the memory limit of a group.
pub fn limit_file(group: &str) -> (path: String)
    ensures
        path@ == "/sys/fs/cgroup"@ + group@ + "/memory.max"@,
{
    let mut path = String::from_str("/sys/fs/cgroup");
    path.append(group);
    path.append("/memory.max");
    path
}

/// The limit in the text of that file. There is none where it holds no number.
pub fn memory_limit(text: &str) -> (bytes: Option<u64>)
    ensures
        bytes == u64_of(trimmed(text@)),
{
    let t = trim(text);
    parse_u64(t.as_str())
}

/// How many pages the process holds in memory, by the text of its memory file.
pub open spec fn resident_pages(text: Seq<char>) -> Option<u64> {
    match second_word(text) {
        Some(word) => u64_of(word),
        None => None,
    }
}

/// How many bytes these are. There are none where the text names no number of pages, or one
/// of more bytes than can be counted.
pub fn resident_bytes(text: &str) -> (bytes: Option<u64>)
    ensures
        bytes == (match resident_pages(text@) {
            Some(pages) => if pages * PAGE_BYTES <= u64::MAX {
                Some((pages * PAGE_BYTES) as u64)
            } else {
                None
            },
            None => None,
        }),
{
    match word_after_first(text) {
        Some(word) => match parse_u64(word.as_str()) {
            Some(pages) => pages.checked_mul(PAGE_BYTES),
            None => None,
        },
        None => None,
    }
}

/// The group is what the first line of the unified hierarchy names, without blanks around it;
/// other lines are passed over.
pub proof fn law_the_unified_group_is_found(rest: Seq<Seq<char>>, line: Seq<char>, name: Seq<char>)
    ensures
        group_of(Seq::empty()) is None,
        line == seq!['0', ':', ':'] + name ==> group_of(seq![line] + rest) == Some(trimmed(name)),
        line.len() < 3 || line.take(3) != seq!['0', ':', ':'] ==> group_of(seq![line] + rest)
            == group_of(rest),
{
    let lines = seq![line] + rest;
    assert(lines[0] == line);
    assert(lines.skip(1) =~= rest);
    if line == seq!['0', ':', ':'] + name {
        assert(line.skip(3) =~= name);
    }
    if line.len() >= 3 && line[0] == '0' && line[1] == ':' && line[2] == ':' {
        assert(line.take(3) =~= seq!['0', ':', ':']);
    }
}

/// What is granted of an offer: nothing while memory is critical, at most one item while it is high
/// and only for what must last, and otherwise what is offered up to the limit.
pub proof fn law_grants_shrink_with_memory(
    critical: bool,
    high: bool,
    durability_critical: bool,
    items: usize,
    max_per_offer: usize,
    granted: usize,
)
    requires
        call_ensures(grant, (critical, high, durability_critical, items, max_per_offer), granted),
    ensures
        granted <= items,
        critical ==> granted == 0,
        !critical && high ==> granted <= 1 && (granted == 1 <==> durability_critical && items >= 1),
        !critical && !high ==> granted <= max_per_offer && (granted == items || granted
            == max_per_offer),
{
}

/// The memory in use is told by the second number of the line, in pages of 4096 bytes.
pub proof fn law_memory_is_told_in_pages(
    text: &str,
    first: Seq<char>,
    pages: u64,
    rest: Seq<char>,
    bytes: Option<u64>,
)
    requires
        first.len() > 0,
        forall|i: int| 0 <= i < first.len() ==> !crate::parse::is_space(#[trigger] first[i]),
        rest.len() > 0 ==> crate::parse::is_space(rest[0]),
        text@ == Seq::empty() + (first + (seq![' '] + (crate::text::decimal(pages as nat) + rest))),
        pages * 4096 <= u64::MAX,
        call_ensures(resident_bytes, (text,), bytes),
    ensures
        bytes is Some && bytes->0 == pages * 4096,
{
    let d = crate::text::decimal(pages as nat);
    crate::text::lemma_decimal_digits(pages as nat);
    crate::parse::law_numbers_read_back(pages as nat);
    assert forall|i: int| 0 <= i < d.len() implies !crate::parse::is_space(#[trigger] d[i]) by {
        crate::parse::law_blanks_are_not_visible(d[i]);
    }
    crate::parse::law_the_second_word_is_found(Seq::empty(), first, seq![' '], d, rest);
}

} // verus!
