//! Reading resolver and domain lists from text.
//!
//! A list holds one entry per line. Blank lines and lines that start with
//! `#` are passed over; white space around an entry does not count.

use crate::aggregate::lemma_filter_step;
use crate::text::text_of;
use crate::transport::{IpFamily, ResolverConfig};
use vstd::prelude::*;
use vstd::string::StrSliceExecFns;

verus! {

/// Whether a character is white space: the characters with the Unicode
/// property `White_Space`.
pub open spec fn is_space(c: char) -> bool {
    let n = c as u32;
    ||| 0x09 <= n <= 0x0d
    ||| n == 0x20
    ||| n == 0x85
    ||| n == 0xa0
    ||| n == 0x1680
    ||| 0x2000 <= n <= 0x200a
    ||| n == 0x2028
    ||| n == 0x2029
    ||| n == 0x202f
    ||| n == 0x205f
    ||| n == 0x3000
}

/// How many white-space characters a text starts with.
pub open spec fn leading_spaces(s: Seq<char>) -> nat
    decreases s.len(),
{
    if s.len() > 0 && is_space(s[0]) {
        1 + leading_spaces(s.drop_first())
    } else {
        0
    }
}

/// How many white-space characters a text ends with.
pub open spec fn trailing_spaces(s: Seq<char>) -> nat
    decreases s.len(),
{
    if s.len() > 0 && is_space(s.last()) {
        1 + trailing_spaces(s.drop_last())
    } else {
        0
    }
}

/// A text without the white space that it starts with.
pub open spec fn trim_start(s: Seq<char>) -> Seq<char> {
    s.skip(leading_spaces(s) as int)
}

/// A text without the white space that it ends with.
pub open spec fn trim_end(s: Seq<char>) -> Seq<char> {
    s.take(s.len() - trailing_spaces(s))
}

/// A text without the white space around it.
pub open spec fn trimmed(s: Seq<char>) -> Seq<char> {
    trim_end(trim_start(s))
}

/// The lines of a text: the pieces between its line feeds. A text
/// without a line feed is one line.
pub open spec fn lines_of(s: Seq<char>) -> Seq<Seq<char>>
    decreases s.len(),
{
    if s.len() == 0 {
        seq![Seq::empty()]
    } else {
        let earlier = lines_of(s.drop_last());
        if s.last() == '\n' {
            earlier.push(Seq::empty())
        } else {
            earlier.drop_last().push(earlier.last().push(s.last()))
        }
    }
}

/// Selects the lines that hold an entry: not empty and not a comment.
pub open spec fn is_entry() -> spec_fn(Seq<char>) -> bool {
    |line: Seq<char>| line.len() > 0 && line[0] != '#'
}

/// Trims a line.
pub open spec fn trim_line() -> spec_fn(Seq<char>) -> Seq<char> {
    |line: Seq<char>| trimmed(line)
}

/// The entries among some lines: the lines, trimmed, that hold one.
pub open spec fn entries_of(lines: Seq<Seq<char>>) -> Seq<Seq<char>> {
    lines.map_values(trim_line()).filter(is_entry())
}

/// The entries of a list given as text.
pub open spec fn list_entries(content: Seq<char>) -> Seq<Seq<char>> {
    entries_of(lines_of(content))
}

/// The characters of a text.
pub fn chars_of(s: &str) -> (r: Vec<char>)
    ensures
        r@ == s@,
{
    broadcast use vstd::string::axiom_spec_iter;

    let mut out: Vec<char> = Vec::new();
    for c in it: s.chars()
        invariant
            it.seq() == s@,
            out@ == it.seq().take(it.index() as int),
    {
        out.push(c);
        assert(out@ =~= it.seq().take(it.index() + 1));
    }
    assert(out@ =~= s@);
    out
}

/// Whether a character is white space.
pub fn is_whitespace(c: char) -> (r: bool)
    ensures
        r == is_space(c),
{
    let n = c as u32;
    (0x09 <= n && n <= 0x0d) || n == 0x20 || n == 0x85 || n == 0xa0 || n == 0x1680 || (0x2000 <= n
        && n <= 0x200a) || n == 0x2028 || n == 0x2029 || n == 0x202f || n == 0x205f || n == 0x3000
}

/// The bounds of the trimmed part of `chars[from..to]`.
pub fn trim_bounds(chars: &Vec<char>, from: usize, to: usize) -> (r: (usize, usize))
    requires
        from <= to <= chars@.len(),
    ensures
        from <= r.0 <= r.1 <= to,
        chars@.subrange(r.0 as int, r.1 as int) == trimmed(chars@.subrange(from as int, to as int)),
{
    let ghost whole = chars@.subrange(from as int, to as int);
    let mut a: usize = from;
    while a < to && is_whitespace(chars[a])
        invariant
            from <= a <= to <= chars@.len(),
            leading_spaces(whole) == (a - from) + leading_spaces(chars@.subrange(a as int, to as int)),
        decreases to - a,
    {
        proof {
            let rest = chars@.subrange(a as int, to as int);
            assert(rest[0] == chars@[a as int]);
            assert(rest.drop_first() == chars@.subrange(a + 1, to as int));
        }
        a += 1;
    }
    let ghost started = chars@.subrange(a as int, to as int);
    proof {
        if a < to {
            assert(started[0] == chars@[a as int]);
        }
        assert(leading_spaces(started) == 0);
        assert(trim_start(whole) =~= started);
    }
    let mut b: usize = to;
    while b > a && is_whitespace(chars[b - 1])
        invariant
            a <= b <= to <= chars@.len(),
            started == chars@.subrange(a as int, to as int),
            trailing_spaces(started) == (to - b) + trailing_spaces(chars@.subrange(a as int, b as int)),
        decreases b,
    {
        proof {
            let rest = chars@.subrange(a as int, b as int);
            assert(rest.last() == chars@[b - 1]);
            assert(rest.drop_last() == chars@.subrange(a as int, b - 1));
        }
        b -= 1;
    }
    proof {
        let kept = chars@.subrange(a as int, b as int);
        if b > a {
            assert(kept.last() == chars@[b - 1]);
        }
        assert(trailing_spaces(kept) == 0);
        assert(trim_end(started) =~= kept);
    }
    (a, b)
}

fn push_line(out: &mut Vec<String>, line: String)
    ensures
        text_of(final(out)@) == text_of(old(out)@).push(line@),
{
    out.push(line);
    assert(text_of(out@) =~= text_of(old(out)@).push(line@));
}

/// The entries among one more line.
proof fn lemma_entries_step(lines: Seq<Seq<char>>, line: Seq<char>)
    ensures
        entries_of(lines.push(line)) == if is_entry()(trimmed(line)) {
            entries_of(lines).push(trimmed(line))
        } else {
            entries_of(lines)
        },
{
    let longer = lines.push(line);
    let mapped = longer.map_values(trim_line());
    assert(mapped.take(lines.len() as int) =~= lines.map_values(trim_line()));
    assert(mapped.take(longer.len() as int) =~= mapped);
    lemma_filter_step(mapped, is_entry(), lines.len() as int);
}

/// Whether `bounds` mark the lines of a text: one pair per line, each
/// holding where the line starts and where it ends.
pub open spec fn are_line_bounds(chars: Seq<char>, bounds: Seq<(usize, usize)>) -> bool {
    &&& bounds.len() == lines_of(chars).len()
    &&& forall|k: int|
        0 <= k < bounds.len() ==> {
            &&& (#[trigger] bounds[k]).0 <= bounds[k].1 <= chars.len()
            &&& chars.subrange(bounds[k].0 as int, bounds[k].1 as int) == lines_of(chars)[k]
        }
}

/// Where each line of a text starts and ends.
pub fn line_bounds(chars: &Vec<char>) -> (bounds: Vec<(usize, usize)>)
    ensures
        are_line_bounds(chars@, bounds@),
{
    let n = chars.len();
    let mut bounds: Vec<(usize, usize)> = Vec::new();
    let mut start: usize = 0;
    let mut i: usize = 0;
    proof {
        assert(chars@.take(0) =~= Seq::<char>::empty());
        assert(chars@.subrange(0, 0) =~= Seq::<char>::empty());
    }
    while i < n
        invariant
            start <= i <= n,
            n == chars@.len(),
            bounds@.len() + 1 == lines_of(chars@.take(i as int)).len(),
            lines_of(chars@.take(i as int)).last() == chars@.subrange(start as int, i as int),
            forall|k: int|
                0 <= k < bounds@.len() ==> {
                    &&& (#[trigger] bounds@[k]).0 <= bounds@[k].1 <= n
                    &&& chars@.subrange(bounds@[k].0 as int, bounds@[k].1 as int) == lines_of(
                        chars@.take(i as int),
                    )[k]
                },
        decreases n - i,
    {
        let ghost before = lines_of(chars@.take(i as int));
        proof {
            assert(chars@.take(i + 1).drop_last() == chars@.take(i as int));
            assert(chars@.take(i + 1).last() == chars@[i as int]);
        }
        if chars[i] == '\n' {
            bounds.push((start, i));
            start = i + 1;
            proof {
                assert(chars@.subrange(start as int, i + 1) =~= Seq::<char>::empty());
            }
        } else {
            proof {
                assert(chars@.subrange(start as int, i + 1) =~= before.last().push(chars@[i as int]));
            }
        }
        i += 1;
    }
    assert(chars@.take(n as int) == chars@);
    bounds.push((start, n));
    bounds
}

/// Read the entries of a list: the lines of the text, each without the
/// white space around it, except those that are empty or start with `#`.
pub fn parse_list(content: &str) -> (entries: Vec<String>)
    ensures
        text_of(entries@) == list_entries(content@),
{
    let chars = chars_of(content);
    let bounds = line_bounds(&chars);
    let ghost lines = lines_of(chars@);
    let mut out: Vec<String> = Vec::new();
    let mut k: usize = 0;
    proof {
        reveal(Seq::filter);
        assert(lines.take(0) =~= Seq::<Seq<char>>::empty());
        assert(text_of(out@) =~= entries_of(lines.take(0)));
    }
    while k < bounds.len()
        invariant
            k <= bounds@.len(),
            chars@ == content@,
            lines == lines_of(chars@),
            are_line_bounds(chars@, bounds@),
            text_of(out@) == entries_of(lines.take(k as int)),
        decreases bounds@.len() - k,
    {
        let (start, end) = bounds[k];
        proof {
            assert(bounds@[k as int] == (start, end));
            assert(lines.take(k + 1) =~= lines.take(k as int).push(lines[k as int]));
            lemma_entries_step(lines.take(k as int), lines[k as int]);
        }
        let (a, b) = trim_bounds(&chars, start, end);
        let ghost t = trimmed(lines[k as int]);
        if b > a {
            assert(t[0] == chars@[a as int]);
        }
        if b > a && chars[a] != '#' {
            push_line(&mut out, content.substring_char(a, b).to_owned());
        }
        k += 1;
    }
    assert(lines.take(lines.len() as int) == lines);
    out
}

/// Where the first `c` stands in a text; the text's length if there is
/// none.
pub open spec fn position_of(s: Seq<char>, c: char) -> int
    decreases s.len(),
{
    if s.len() == 0 || s[0] == c {
        0
    } else {
        1 + position_of(s.drop_first(), c)
    }
}

/// The address of a resolver line: what stands before the first `#`,
/// trimmed.
pub open spec fn entry_address(line: Seq<char>) -> Seq<char> {
    trimmed(line.take(position_of(line, '#')))
}

/// The label of a resolver line: what stands after the first `#`,
/// trimmed, if there is anything.
pub open spec fn entry_label(line: Seq<char>) -> Option<Seq<char>> {
    let at = position_of(line, '#');
    if at < line.len() && trimmed(line.skip(at + 1)).len() > 0 {
        Some(trimmed(line.skip(at + 1)))
    } else {
        None
    }
}

/// One line of a resolver list: an address and, after a `#`, a display
/// name.
#[derive(Debug, PartialEq, Eq)]
pub struct ResolverEntry {
    pub address: String,
    pub label: Option<String>,
}

impl ResolverEntry {
    /// Whether the entry is what a line says.
    pub open spec fn reads(self, line: Seq<char>) -> bool {
        &&& self.address@ == entry_address(trimmed(line))
        &&& match self.label {
            Some(label) => entry_label(trimmed(line)) == Some(label@),
            None => entry_label(trimmed(line)) is None,
        }
    }
}

proof fn lemma_position_of(s: Seq<char>, c: char, at: int)
    requires
        0 <= at <= s.len(),
        forall|k: int| 0 <= k < at ==> s[k] != c,
        at == s.len() || s[at] == c,
    ensures
        position_of(s, c) == at,
    decreases at,
{
    if at > 0 {
        let rest = s.drop_first();
        assert forall|k: int| 0 <= k < at - 1 implies rest[k] != c by {
            assert(rest[k] == s[k + 1]);
        }
        if at < s.len() {
            assert(rest[at - 1] == s[at]);
        }
        lemma_position_of(rest, c, at - 1);
    }
}

/// Split a resolver line into its address and its label.
///
/// Format: `ADDRESS  # Label`. White space around the line, the address
/// and the label does not count, and an empty label is no label.
pub fn split_resolver_line(line: &str) -> (entry: ResolverEntry)
    ensures
        entry.reads(line@),
{
    let chars = chars_of(line);
    let (a, b) = trim_bounds(&chars, 0, chars.len());
    assert(chars@.subrange(0, chars@.len() as int) == chars@);
    let ghost t = chars@.subrange(a as int, b as int);
    let mut h: usize = a;
    while h < b && chars[h] != '#'
        invariant
            a <= h <= b <= chars@.len(),
            forall|k: int| a <= k < h ==> chars@[k] != '#',
        decreases b - h,
    {
        h += 1;
    }
    proof {
        assert forall|k: int| 0 <= k < h - a implies t[k] != '#' by {
            assert(t[k] == chars@[a + k]);
        }
        if h < b {
            assert(t[h - a] == chars@[h as int]);
        }
        lemma_position_of(t, '#', h - a);
        assert(t.take(h - a) =~= chars@.subrange(a as int, h as int));
    }
    let (a1, b1) = trim_bounds(&chars, a, h);
    let address = line.substring_char(a1, b1).to_owned();
    let label = if h < b {
        proof {
            assert(t.skip(h - a + 1) =~= chars@.subrange(h + 1, b as int));
        }
        let (a2, b2) = trim_bounds(&chars, h + 1, b);
        if b2 > a2 {
            Some(line.substring_char(a2, b2).to_owned())
        } else {
            None
        }
    } else {
        None
    };
    ResolverEntry { address, label }
}

/// Whether `entries` are what a resolver list says: one per line that
/// holds an entry.
pub open spec fn are_resolver_entries(content: Seq<char>, entries: Seq<ResolverEntry>) -> bool {
    &&& entries.len() == list_entries(content).len()
    &&& forall|k: int| 0 <= k < entries.len() ==> (#[trigger] entries[k]).reads(list_entries(content)[k])
}

/// Read a resolver list: one resolver per line, with an optional display
/// name after a `#`. Blank lines and lines that start with `#` are passed
/// over.
pub fn parse_resolver_list(content: &str) -> (entries: Vec<ResolverEntry>)
    ensures
        are_resolver_entries(content@, entries@),
{
    let lines = parse_list(content);
    let mut out: Vec<ResolverEntry> = Vec::new();
    let mut k: usize = 0;
    while k < lines.len()
        invariant
            k <= lines@.len(),
            text_of(lines@) == list_entries(content@),
            out@.len() == k,
            forall|j: int| 0 <= j < k ==> (#[trigger] out@[j]).reads(list_entries(content@)[j]),
        decreases lines@.len() - k,
    {
        assert(text_of(lines@)[k as int] == lines@[k as int]@);
        out.push(split_resolver_line(lines[k].as_str()));
        k += 1;
    }
    assert(text_of(lines@).len() == lines@.len());
    out
}

/// How often a character stands in a text.
pub open spec fn count_of(s: Seq<char>, c: char) -> nat
    decreases s.len(),
{
    if s.len() == 0 {
        0
    } else {
        count_of(s.drop_last(), c) + if s.last() == c {
            1nat
        } else {
            0nat
        }
    }
}

/// The shape of a resolver address, which decides how it is read.
#[derive(Debug, Clone, Copy, PartialEq, Eq, Structural)]
pub enum AddressForm {
    /// Nothing at all.
    Empty,
    /// An IPv6 address in brackets, with a port: `[2606:4700::1111]:53`.
    Bracketed,
    /// An IPv6 address alone: two or more colons, as in `2606:4700::1111`.
    BareV6,
    /// An IPv4 address, with or without a port: `1.1.1.1:53`, `1.1.1.1`.
    V4,
}

/// The shape of a trimmed address.
pub open spec fn address_form(t: Seq<char>) -> AddressForm {
    if t.len() == 0 {
        AddressForm::Empty
    } else if t[0] == '[' {
        AddressForm::Bracketed
    } else if count_of(t, ':') > 1 {
        AddressForm::BareV6
    } else {
        AddressForm::V4
    }
}

/// Trim a resolver address and tell its shape.
pub fn classify_address(input: &str) -> (r: (AddressForm, String))
    ensures
        r.1@ == trimmed(input@),
        r.0 == address_form(trimmed(input@)),
{
    let chars = chars_of(input);
    let (a, b) = trim_bounds(&chars, 0, chars.len());
    assert(chars@.subrange(0, chars@.len() as int) == chars@);
    let ghost t = chars@.subrange(a as int, b as int);
    let text = input.substring_char(a, b).to_owned();
    if a == b {
        return (AddressForm::Empty, text);
    }
    assert(t[0] == chars@[a as int]);
    if chars[a] == '[' {
        return (AddressForm::Bracketed, text);
    }
    let mut colons: usize = 0;
    let mut i: usize = a;
    assert(chars@.subrange(a as int, a as int) =~= Seq::<char>::empty());
    while i < b
        invariant
            a <= i <= b <= chars@.len(),
            colons == count_of(chars@.subrange(a as int, i as int), ':'),
            colons <= i - a,
        decreases b - i,
    {
        proof {
            let next = chars@.subrange(a as int, i + 1);
            assert(next.drop_last() =~= chars@.subrange(a as int, i as int));
            assert(next.last() == chars@[i as int]);
        }
        if chars[i] == ':' {
            colons += 1;
        }
        i += 1;
    }
    if colons > 1 {
        (AddressForm::BareV6, text)
    } else {
        (AddressForm::V4, text)
    }
}

/// How many characters a text starts with that are not white space.
pub open spec fn token_len(s: Seq<char>) -> nat
    decreases s.len(),
{
    if s.len() > 0 && !is_space(s[0]) {
        1 + token_len(s.drop_first())
    } else {
        0
    }
}

/// The second of the words of a text that starts with a word.
pub open spec fn second_word(t: Seq<char>) -> Option<Seq<char>> {
    let rest = trim_start(t.skip(token_len(t) as int));
    if rest.len() > 0 {
        Some(rest.take(token_len(rest) as int))
    } else {
        None
    }
}

/// The address that a line of a resolver configuration names: the word
/// after the first, in a line that starts with `nameserver`.
pub open spec fn nameserver_of(line: Seq<char>) -> Option<Seq<char>> {
    let t = trimmed(line);
    if "nameserver"@.is_prefix_of(t) {
        second_word(t)
    } else {
        None
    }
}

/// The addresses that some lines name, in order.
pub open spec fn nameservers_among(lines: Seq<Seq<char>>) -> Seq<Seq<char>>
    decreases lines.len(),
{
    if lines.len() == 0 {
        Seq::empty()
    } else {
        let earlier = nameservers_among(lines.drop_last());
        match nameserver_of(lines.last()) {
            Some(address) => earlier.push(address),
            None => earlier,
        }
    }
}

/// Whether `chars[from..to]` starts with `prefix`.
fn has_prefix(chars: &Vec<char>, from: usize, to: usize, prefix: &Vec<char>) -> (r: bool)
    requires
        from <= to <= chars@.len(),
    ensures
        r == prefix@.is_prefix_of(chars@.subrange(from as int, to as int)),
{
    let ghost t = chars@.subrange(from as int, to as int);
    if prefix.len() > to - from {
        return false;
    }
    let mut i: usize = 0;
    while i < prefix.len()
        invariant
            i <= prefix@.len() <= to - from,
            from <= to <= chars@.len(),
            t == chars@.subrange(from as int, to as int),
            forall|k: int| 0 <= k < i ==> prefix@[k] == t[k],
        decreases prefix@.len() - i,
    {
        if prefix[i] != chars[from + i] {
            assert(t[i as int] == chars@[from + i]);
            assert(t.subrange(0, prefix@.len() as int)[i as int] != prefix@[i as int]);
            return false;
        }
        assert(t[i as int] == chars@[from + i]);
        i += 1;
    }
    assert(prefix@ =~= t.subrange(0, prefix@.len() as int));
    true
}

/// The end of the word that starts at `from`.
fn word_end(chars: &Vec<char>, from: usize, to: usize) -> (end: usize)
    requires
        from <= to <= chars@.len(),
    ensures
        from <= end <= to,
        end - from == token_len(chars@.subrange(from as int, to as int)),
{
    let mut e: usize = from;
    while e < to && !is_whitespace(chars[e])
        invariant
            from <= e <= to <= chars@.len(),
            token_len(chars@.subrange(from as int, to as int)) == (e - from) + token_len(
                chars@.subrange(e as int, to as int),
            ),
        decreases to - e,
    {
        proof {
            let rest = chars@.subrange(e as int, to as int);
            assert(rest[0] == chars@[e as int]);
            assert(rest.drop_first() == chars@.subrange(e + 1, to as int));
        }
        e += 1;
    }
    proof {
        let rest = chars@.subrange(e as int, to as int);
        if e < to {
            assert(rest[0] == chars@[e as int]);
        }
    }
    e
}

/// The start of what follows the white space at `from`.
fn skip_spaces(chars: &Vec<char>, from: usize, to: usize) -> (start: usize)
    requires
        from <= to <= chars@.len(),
    ensures
        from <= start <= to,
        chars@.subrange(start as int, to as int) == trim_start(chars@.subrange(from as int, to as int)),
{
    let ghost whole = chars@.subrange(from as int, to as int);
    let mut a: usize = from;
    while a < to && is_whitespace(chars[a])
        invariant
            from <= a <= to <= chars@.len(),
            leading_spaces(whole) == (a - from) + leading_spaces(chars@.subrange(a as int, to as int)),
        decreases to - a,
    {
        proof {
            let rest = chars@.subrange(a as int, to as int);
            assert(rest[0] == chars@[a as int]);
            assert(rest.drop_first() == chars@.subrange(a + 1, to as int));
        }
        a += 1;
    }
    proof {
        let started = chars@.subrange(a as int, to as int);
        if a < to {
            assert(started[0] == chars@[a as int]);
        }
        assert(trim_start(whole) =~= started);
    }
    a
}

/// Read the name servers of a resolver configuration: of each line that
/// starts with `nameserver`, the word that follows.
pub fn parse_nameservers(content: &str) -> (addresses: Vec<String>)
    ensures
        text_of(addresses@) == nameservers_among(lines_of(content@)),
{
    let keyword = chars_of("nameserver");
    let chars = chars_of(content);
    let bounds = line_bounds(&chars);
    let ghost lines = lines_of(chars@);
    let mut out: Vec<String> = Vec::new();
    let mut k: usize = 0;
    proof {
        assert(lines.take(0) =~= Seq::<Seq<char>>::empty());
        assert(text_of(out@) =~= nameservers_among(lines.take(0)));
    }
    while k < bounds.len()
        invariant
            k <= bounds@.len(),
            chars@ == content@,
            keyword@ == "nameserver"@,
            lines == lines_of(chars@),
            are_line_bounds(chars@, bounds@),
            text_of(out@) == nameservers_among(lines.take(k as int)),
        decreases bounds@.len() - k,
    {
        let (start, end) = bounds[k];
        proof {
            assert(bounds@[k as int] == (start, end));
            assert(lines.take(k + 1).drop_last() =~= lines.take(k as int));
            assert(lines.take(k + 1).last() == lines[k as int]);
        }
        let (a, b) = trim_bounds(&chars, start, end);
        let ghost t = chars@.subrange(a as int, b as int);
        if has_prefix(&chars, a, b, &keyword) {
            let first_end = word_end(&chars, a, b);
            proof {
                assert(t.skip(first_end - a) =~= chars@.subrange(first_end as int, b as int));
            }
            let second = skip_spaces(&chars, first_end, b);
            if second < b {
                let second_end = word_end(&chars, second, b);
                proof {
                    let rest = chars@.subrange(second as int, b as int);
                    assert(rest.take(second_end - second) =~= chars@.subrange(
                        second as int,
                        second_end as int,
                    ));
                }
                push_line(&mut out, content.substring_char(second, second_end).to_owned());
            }
        }
        k += 1;
    }
    assert(lines.take(lines.len() as int) == lines);
    out
}

/// The port that DNS is served on.
pub const DNS_PORT: u16 = 53;

/// The well-known resolver with the given name and IPv4 address.
pub open spec fn well_known(label: Seq<char>, ip: Seq<char>, r: ResolverConfig) -> bool {
    &&& r.label@ == label
    &&& r.ip@ == ip
    &&& r.port == DNS_PORT
    &&& r.family == IpFamily::V4
    &&& !r.intercepts_nxdomain
}

fn well_known_resolver(label: &str, ip: &str) -> (r: ResolverConfig)
    ensures
        well_known(label@, ip@, r),
{
    ResolverConfig {
        label: label.to_owned(),
        ip: ip.to_owned(),
        port: DNS_PORT,
        family: IpFamily::V4,
        intercepts_nxdomain: false,
    }
}

/// The resolvers to measure when no list is given and none is found:
/// four well-known public ones.
pub fn fallback_resolvers() -> (r: Vec<ResolverConfig>)
    ensures
        r@.len() == 4,
        well_known("Cloudflare"@, "1.1.1.1"@, r@[0]),
        well_known("Google"@, "8.8.8.8"@, r@[1]),
        well_known("Quad9"@, "9.9.9.9"@, r@[2]),
        well_known("OpenDNS"@, "208.67.222.222"@, r@[3]),
{
    let mut out: Vec<ResolverConfig> = Vec::new();
    out.push(well_known_resolver("Cloudflare", "1.1.1.1"));
    out.push(well_known_resolver("Google", "8.8.8.8"));
    out.push(well_known_resolver("Quad9", "9.9.9.9"));
    out.push(well_known_resolver("OpenDNS", "208.67.222.222"));
    out
}

} // verus!
