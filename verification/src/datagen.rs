//! Which payload sizes a run covers, and the payloads themselves.

use rand::RngCore;
use vstd::prelude::*;
use vstd::utf8::is_ascii_chars;

verus! {

/// The payload sizes to choose from, by name.
pub const SIZES: [(&'static str, usize); 5] = [
    ("1KB", 1_024),
    ("10KB", 10_240),
    ("100KB", 102_400),
    ("1MB", 1_048_576),
    ("10MB", 10_485_760),
];

/// The number of the packet that a warm-up connection sends.
pub const WARMUP_SEQUENCE_ID: u64 = 0xffff_ffff_ffff_ffff;

/// A character in lower case, where it is an ASCII letter.
pub open spec fn ascii_lower_char(c: char) -> char {
    if 'A' <= c && c <= 'Z' {
        (c as u32 + 32) as char
    } else {
        c
    }
}

/// A text with its ASCII letters in lower case.
pub open spec fn ascii_lower(text: Seq<char>) -> Seq<char> {
    text.map_values(|c: char| ascii_lower_char(c))
}

/// What `str::to_lowercase` makes of a text.
pub uninterp spec fn unicode_lower(text: Seq<char>) -> Seq<char>;

/// A text in lower case.
pub open spec fn lowered(text: Seq<char>) -> Seq<char> {
    if is_ascii_chars(text) {
        ascii_lower(text)
    } else {
        unicode_lower(text)
    }
}

/// Calls `str::to_lowercase`: an ASCII text comes back with its letters in lower case; of
/// other texts only that the result depends on the text alone is claimed.
#[verifier::external_body]
fn to_lower(text: &str) -> (lower: String)
    ensures
        lower@ == if is_ascii_chars(text@) {
            ascii_lower(text@)
        } else {
            unicode_lower(text@)
        },
{
    text.to_lowercase()
}

/// A character is white space: it has the Unicode property `White_Space`.
pub open spec fn is_space(c: char) -> bool {
    ||| '\u{9}' <= c && c <= '\u{d}'
    ||| c == '\u{20}'
    ||| c == '\u{85}'
    ||| c == '\u{a0}'
    ||| c == '\u{1680}'
    ||| '\u{2000}' <= c && c <= '\u{200a}'
    ||| c == '\u{2028}'
    ||| c == '\u{2029}'
    ||| c == '\u{202f}'
    ||| c == '\u{205f}'
    ||| c == '\u{3000}'
}

/// Calls `char::is_whitespace`: whether the character has the Unicode property
/// `White_Space`.
#[verifier::external_body]
fn space(c: char) -> (yes: bool)
    ensures
        yes == is_space(c),
{
    c.is_whitespace()
}

/// A text without white space at its ends.
pub open spec fn trimmed(text: Seq<char>) -> Seq<char>
    decreases text.len(),
{
    if text.len() > 0 && is_space(text.first()) {
        trimmed(text.drop_first())
    } else if text.len() > 0 && is_space(text.last()) {
        trimmed(text.drop_last())
    } else {
        text
    }
}

/// A text cut at its commas: each comma opens a new piece, and every other character goes
/// to the end of the last one.
pub open spec fn comma_pieces(text: Seq<char>) -> Seq<Seq<char>>
    decreases text.len(),
{
    if text.len() == 0 {
        seq![Seq::empty()]
    } else {
        let pieces = comma_pieces(text.drop_last());
        if text.last() == ',' {
            pieces.push(Seq::empty())
        } else {
            pieces.update(pieces.len() - 1, pieces.last().push(text.last()))
        }
    }
}

/// The size names that a text asks for, in lower case.
pub open spec fn names_in(text: Seq<char>) -> Seq<Seq<char>> {
    comma_pieces(text).map_values(|piece: Seq<char>| lowered(trimmed(piece)))
}

/// The sizes of the table whose names are among `names`.
pub open spec fn sizes_named(names: Seq<Seq<char>>) -> Seq<(&'static str, usize)> {
    SIZES@.filter(|size: (&'static str, usize)| names.contains(lowered(size.0@)))
}

/// The characters of a text.
fn chars_of(text: &str) -> (chars: Vec<char>)
    ensures
        chars@ == text@,
{
    let mut chars: Vec<char> = Vec::new();
    for c in it: text.chars()
        invariant
            it.seq() == text@,
            chars@ == text@.take(it.index() as int),
    {
        proof {
            assert(text@.take(it.index() + 1) =~= text@.take(it.index() as int).push(c));
        }
        chars.push(c);
    }
    assert(text@.take(text@.len() as int) =~= text@);
    chars
}

/// Where the pieces between commas begin and end.
fn comma_ranges(chars: &Vec<char>) -> (ranges: Vec<(usize, usize)>)
    ensures
        ranges@.len() == comma_pieces(chars@).len(),
        forall|k: int|
            0 <= k < ranges@.len() ==> (#[trigger] ranges@[k]).0 <= ranges@[k].1 <= chars@.len()
                && chars@.subrange(ranges@[k].0 as int, ranges@[k].1 as int) == comma_pieces(
                chars@,
            )[k],
{
    let mut ranges: Vec<(usize, usize)> = Vec::new();
    let mut start: usize = 0;
    let mut i: usize = 0;
    assert(chars@.take(0) =~= Seq::empty());
    assert(chars@.subrange(0, 0) =~= Seq::empty());
    while i < chars.len()
        invariant
            start <= i <= chars@.len(),
            comma_pieces(chars@.take(i as int)).len() == ranges@.len() + 1,
            comma_pieces(chars@.take(i as int)).last() == chars@.subrange(start as int, i as int),
            forall|k: int|
                0 <= k < ranges@.len() ==> (#[trigger] ranges@[k]).0 <= ranges@[k].1 <= chars@.len()
                    && chars@.subrange(ranges@[k].0 as int, ranges@[k].1 as int) == comma_pieces(
                    chars@.take(i as int),
                )[k],
        decreases chars@.len() - i,
    {
        let ghost before = comma_pieces(chars@.take(i as int));
        let ghost after = comma_pieces(chars@.take(i + 1));
        assert(chars@.take(i + 1).drop_last() =~= chars@.take(i as int));
        if chars[i] == ',' {
            ranges.push((start, i));
            start = i + 1;
            assert(after == before.push(Seq::empty()));
            assert(chars@.subrange(i + 1, i + 1) =~= Seq::empty());
        } else {
            assert(chars@.subrange(start as int, i + 1) =~= chars@.subrange(
                start as int,
                i as int,
            ).push(chars@[i as int]));
        }
        i = i + 1;
    }
    assert(chars@.take(i as int) =~= chars@);
    ranges.push((start, i));
    ranges
}

/// Where a stretch of a text begins and ends once white space is taken off its ends.
fn trim_range(chars: &Vec<char>, from: usize, to: usize) -> (range: (usize, usize))
    requires
        from <= to <= chars@.len(),
    ensures
        range.0 <= range.1 <= chars@.len(),
        chars@.subrange(range.0 as int, range.1 as int) == trimmed(
            chars@.subrange(from as int, to as int),
        ),
{
    let mut start: usize = from;
    let mut end: usize = to;
    while start < end && space(chars[start])
        invariant
            start <= end <= chars@.len(),
            trimmed(chars@.subrange(start as int, end as int)) == trimmed(
                chars@.subrange(from as int, to as int),
            ),
        ensures
            start < end ==> !is_space(chars@[start as int]),
        decreases end - start,
    {
        assert(chars@.subrange(start as int, end as int).drop_first() =~= chars@.subrange(
            start + 1,
            end as int,
        ));
        start = start + 1;
    }
    while start < end && space(chars[end - 1])
        invariant
            start <= end <= chars@.len(),
            start < end ==> !is_space(chars@[start as int]),
            trimmed(chars@.subrange(start as int, end as int)) == trimmed(
                chars@.subrange(from as int, to as int),
            ),
        ensures
            start < end ==> !is_space(chars@[end - 1]),
        decreases end - start,
    {
        assert(chars@.subrange(start as int, end as int).drop_last() =~= chars@.subrange(
            start as int,
            end - 1,
        ));
        end = end - 1;
    }
    (start, end)
}

/// The size names that a text asks for, in lower case.
pub fn requested_names(input: &str) -> (names: Vec<String>)
    ensures
        names@.map_values(|name: String| name@) == names_in(input@),
{
    let chars = chars_of(input);
    let ranges = comma_ranges(&chars);
    let mut names: Vec<String> = Vec::new();
    let mut i: usize = 0;
    while i < ranges.len()
        invariant
            chars@ == input@,
            i <= ranges@.len(),
            ranges@.len() == comma_pieces(chars@).len(),
            forall|k: int|
                0 <= k < ranges@.len() ==> (#[trigger] ranges@[k]).0 <= ranges@[k].1 <= chars@.len()
                    && chars@.subrange(ranges@[k].0 as int, ranges@[k].1 as int) == comma_pieces(
                    chars@,
                )[k],
            names@.len() == i,
            forall|k: int|
                0 <= k < i ==> (#[trigger] names@[k])@ == lowered(trimmed(comma_pieces(input@)[k])),
        decreases ranges@.len() - i,
    {
        let (from, to) = ranges[i];
        let (start, end) = trim_range(&chars, from, to);
        names.push(to_lower(input.substring_char(start, end)));
        i = i + 1;
    }
    assert(names@.map_values(|name: String| name@) =~= names_in(input@));
    names
}

/// Whether `name` is among `names`.
fn is_named(names: &Vec<String>, name: &String) -> (yes: bool)
    ensures
        yes == names@.map_values(|name: String| name@).contains(name@),
{
    let ghost views = names@.map_values(|name: String| name@);
    let mut i: usize = 0;
    while i < names.len()
        invariant
            i <= names@.len(),
            views == names@.map_values(|name: String| name@),
            forall|k: int| 0 <= k < i ==> views[k] != name@,
        decreases names@.len() - i,
    {
        if names[i] == *name {
            assert(views[i as int] == name@);
            return true;
        }
        i = i + 1;
    }
    false
}

/// The sizes of the table that are asked for by their names in lower case, in the order of
/// the table.
pub fn select_sizes(requested: &Vec<String>) -> (sizes: Vec<(&'static str, usize)>)
    ensures
        sizes@ == sizes_named(requested@.map_values(|name: String| name@)),
{
    let ghost names = requested@.map_values(|name: String| name@);
    let ghost wanted = |size: (&'static str, usize)| names.contains(lowered(size.0@));
    let table = SIZES;
    let mut sizes: Vec<(&'static str, usize)> = Vec::new();
    let mut i: usize = 0;
    proof {
        reveal(Seq::filter);
        assert(table@.take(0) =~= Seq::empty());
    }
    while i < 5
        invariant
            i <= 5,
            table == SIZES,
            names == requested@.map_values(|name: String| name@),
            wanted == (|size: (&'static str, usize)| names.contains(lowered(size.0@))),
            sizes@ == table@.take(i as int).filter(wanted),
        decreases 5 - i,
    {
        proof {
            reveal(Seq::filter);
            assert(table@.take(i + 1).drop_last() =~= table@.take(i as int));
        }
        let size = table[i];
        let lower = to_lower(size.0);
        if is_named(requested, &lower) {
            sizes.push(size);
        }
        i = i + 1;
    }
    assert(table@.take(5) =~= SIZES@);
    sizes
}

/// The sizes that a comma-separated list of names asks for, in the order of the table.
/// White space around a name and the case of its letters do not matter, and names that are
/// not in the table ask for nothing.
pub fn parse_sizes(input: &str) -> (sizes: Vec<(&'static str, usize)>)
    ensures
        sizes@ == sizes_named(names_in(input@)),
{
    let requested = requested_names(input);
    select_sizes(&requested)
}

/// Calls `RngCore::fill_bytes` on `rand::thread_rng`: every byte is drawn anew, and the
/// number of bytes stays. Which bytes come is chance.
#[verifier::external_body]
fn fill_random(bytes: Vec<u8>) -> (filled: Vec<u8>)
    ensures
        filled@.len() == bytes@.len(),
{
    let mut bytes = bytes;
    rand::thread_rng().fill_bytes(&mut bytes);
    bytes
}

/// The bytes came, all of them, out of the random number generator.
pub closed spec fn drawn(bytes: Seq<u8>) -> bool {
    exists|before: Vec<u8>, after: Vec<u8>| #[trigger]
        call_ensures(fill_random, (before,), after) && after@ == bytes
}

/// A payload of random bytes.
pub fn generate_payload(size: usize) -> (payload: Vec<u8>)
    ensures
        payload@.len() == size,
        drawn(payload@),
{
    let blank: Vec<u8> = vec![0u8; size];
    let payload = fill_random(blank);
    assert(drawn(payload@));
    payload
}

/// As many payloads of random bytes as asked for, all of one size.
pub fn generate_payloads(size: usize, count: usize) -> (payloads: Vec<Vec<u8>>)
    ensures
        payloads@.len() == count,
        forall|i: int| 0 <= i < count ==> (#[trigger] payloads@[i])@.len() == size,
        forall|i: int| 0 <= i < count ==> drawn((#[trigger] payloads@[i])@),
{
    let mut payloads: Vec<Vec<u8>> = Vec::new();
    let mut i: usize = 0;
    while i < count
        invariant
            i <= count,
            payloads@.len() == i,
            forall|k: int| 0 <= k < i ==> (#[trigger] payloads@[k])@.len() == size,
            forall|k: int| 0 <= k < i ==> drawn((#[trigger] payloads@[k])@),
        decreases count - i,
    {
        payloads.push(generate_payload(size));
        i = i + 1;
    }
    payloads
}

/// `numbered` is `payloads`, each with its position.
pub open spec fn numbers(numbered: Seq<(u64, Vec<u8>)>, payloads: Seq<Vec<u8>>) -> bool {
    &&& numbered.len() == payloads.len()
    &&& forall|i: int|
        0 <= i < numbered.len() ==> (#[trigger] numbered[i]).0 == i && numbered[i].1@
            == payloads[i]@
}

/// A copy of the payloads, each with its position as its sequence number.
pub fn number_payloads(payloads: &Vec<Vec<u8>>) -> (numbered: Vec<(u64, Vec<u8>)>)
    ensures
        numbers(numbered@, payloads@),
{
    let mut numbered: Vec<(u64, Vec<u8>)> = Vec::new();
    let mut i: usize = 0;
    while i < payloads.len()
        invariant
            i <= payloads@.len(),
            numbered@.len() == i,
            forall|k: int|
                0 <= k < i ==> (#[trigger] numbered@[k]).0 == k && numbered@[k].1@ == payloads@[k]@,
        decreases payloads@.len() - i,
    {
        let payload: Vec<u8> = payloads[i].clone();
        assert(payload@ =~= payloads@[i as int]@);
        numbered.push((i as u64, payload));
        i = i + 1;
    }
    numbered
}

/// The sizes on the table ascend from 1 KB to 10 MB.
pub proof fn lemma_table_sizes()
    ensures
        SIZES@.len() == 5,
        forall|i: int, j: int|
            0 <= i < j < 5 ==> (#[trigger] SIZES@[i]).1 < (#[trigger] SIZES@[j]).1,
        forall|i: int| 0 <= i < 5 ==> 1_024 <= (#[trigger] SIZES@[i]).1 <= 10_485_760,
{
}

/// What the names on the table are in lower case.
proof fn lemma_table_names()
    ensures
        SIZES@.len() == 5,
        lowered(SIZES@[0].0@) == "1kb"@,
        lowered(SIZES@[1].0@) == "10kb"@,
        lowered(SIZES@[2].0@) == "100kb"@,
        lowered(SIZES@[3].0@) == "1mb"@,
        lowered(SIZES@[4].0@) == "10mb"@,
        "1kb"@.len() == 3,
        "10kb"@.len() == 4,
        "100kb"@.len() == 5,
        "1mb"@.len() == 3,
        "10mb"@.len() == 4,
        "1kb"@[1] == 'k',
        "10kb"@[2] == 'k',
        "1mb"@[1] == 'm',
        "10mb"@[2] == 'm',
{
    reveal_strlit("1KB");
    reveal_strlit("10KB");
    reveal_strlit("100KB");
    reveal_strlit("1MB");
    reveal_strlit("10MB");
    reveal_strlit("1kb");
    reveal_strlit("10kb");
    reveal_strlit("100kb");
    reveal_strlit("1mb");
    reveal_strlit("10mb");
    assert(lowered(SIZES@[0].0@) =~= "1kb"@);
    assert(lowered(SIZES@[1].0@) =~= "10kb"@);
    assert(lowered(SIZES@[2].0@) =~= "100kb"@);
    assert(lowered(SIZES@[3].0@) =~= "1mb"@);
    assert(lowered(SIZES@[4].0@) =~= "10mb"@);
}

/// Filtering keeps the order of the sizes.
proof fn lemma_filter_ascends(
    table: Seq<(&'static str, usize)>,
    wanted: spec_fn((&'static str, usize)) -> bool,
)
    requires
        forall|i: int, j: int|
            0 <= i < j < table.len() ==> (#[trigger] table[i]).1 < (#[trigger] table[j]).1,
    ensures
        forall|i: int, j: int|
            0 <= i < j < table.filter(wanted).len() ==> (#[trigger] table.filter(wanted)[i]).1 < (
            #[trigger] table.filter(wanted)[j]).1,
        forall|i: int|
            0 <= i < table.filter(wanted).len() ==> table.contains(
                #[trigger] table.filter(wanted)[i],
            ),
    decreases table.len(),
{
    reveal(Seq::filter);
    if table.len() > 0 {
        let rest = table.drop_last();
        lemma_filter_ascends(rest, wanted);
        assert forall|i: int| 0 <= i < rest.filter(wanted).len() implies (
        #[trigger] rest.filter(wanted)[i]).1 < table.last().1 && table.contains(
            rest.filter(wanted)[i],
        ) by {
            let k = choose|k: int| 0 <= k < rest.len() && rest[k] == rest.filter(wanted)[i];
            assert(table[k] == rest[k]);
        }
        assert(table.contains(table.last()));
    }
}

/// The sizes selected are sizes of the table, from the smallest to the largest and each
/// once, whatever the order and number of the names.
pub proof fn law_selected_sizes_ascend(names: Seq<Seq<char>>)
    ensures
        sizes_named(names).len() <= SIZES@.len(),
        forall|i: int|
            0 <= i < sizes_named(names).len() ==> SIZES@.contains(#[trigger] sizes_named(names)[i]),
        forall|i: int, j: int|
            0 <= i < j < sizes_named(names).len() ==> (#[trigger] sizes_named(names)[i]).1 < (
            #[trigger] sizes_named(names)[j]).1,
{
    let wanted = |size: (&'static str, usize)| names.contains(lowered(size.0@));
    lemma_table_sizes();
    lemma_filter_ascends(SIZES@, wanted);
    SIZES@.lemma_filter_len(wanted);
}

/// A size is selected exactly where its name is among those asked for.
pub proof fn law_named_sizes_are_selected(names: Seq<Seq<char>>, i: int)
    requires
        0 <= i < SIZES@.len(),
    ensures
        sizes_named(names).contains(SIZES@[i]) == names.contains(lowered(SIZES@[i].0@)),
{
    let wanted = |size: (&'static str, usize)| names.contains(lowered(size.0@));
    if wanted(SIZES@[i]) {
        SIZES@.lemma_filter_contains(wanted, i);
    }
    if sizes_named(names).contains(SIZES@[i]) {
        SIZES@.lemma_filter_contains_rev(wanted, SIZES@[i]);
    }
}

/// No two sizes answer to the same name.
pub proof fn law_names_tell_sizes_apart(i: int, j: int)
    requires
        0 <= i < j < SIZES@.len(),
    ensures
        lowered(SIZES@[i].0@) != lowered(SIZES@[j].0@),
{
    lemma_table_names();
}

/// Only which names are asked for matters, not their order or how often they come.
pub proof fn law_order_and_repetition_of_names_do_not_matter(
    a: Seq<Seq<char>>,
    b: Seq<Seq<char>>,
)
    requires
        forall|name: Seq<char>| #[trigger] a.contains(name) == b.contains(name),
    ensures
        sizes_named(a) == sizes_named(b),
{
    let wanted_a = |size: (&'static str, usize)| a.contains(lowered(size.0@));
    let wanted_b = |size: (&'static str, usize)| b.contains(lowered(size.0@));
    assert(wanted_a =~= wanted_b);
}

proof fn lemma_pieces_nonempty(text: Seq<char>)
    ensures
        comma_pieces(text).len() > 0,
    decreases text.len(),
{
    if text.len() > 0 {
        lemma_pieces_nonempty(text.drop_last());
    }
}

/// Two lists with a comma between them ask for what both ask for.
pub proof fn law_lists_join_at_a_comma(a: Seq<char>, b: Seq<char>)
    ensures
        names_in(a + seq![','] + b) == names_in(a) + names_in(b),
{
    lemma_join_pieces(a, b);
    assert(names_in(a + seq![','] + b) =~= names_in(a) + names_in(b));
}

proof fn lemma_join_pieces(a: Seq<char>, b: Seq<char>)
    ensures
        comma_pieces(a + seq![','] + b) == comma_pieces(a) + comma_pieces(b),
    decreases b.len(),
{
    let joined = a + seq![','] + b;
    if b.len() == 0 {
        assert(joined.drop_last() =~= a);
        assert(comma_pieces(joined) =~= comma_pieces(a) + comma_pieces(b));
    } else {
        let rest = b.drop_last();
        lemma_join_pieces(a, rest);
        lemma_pieces_nonempty(rest);
        assert(joined.drop_last() =~= a + seq![','] + rest);
        assert(comma_pieces(joined) =~= comma_pieces(a) + comma_pieces(b));
    }
}

/// White space around a name does not matter.
pub proof fn law_white_space_around_a_name_does_not_matter(name: Seq<char>, c: char)
    requires
        is_space(c),
    ensures
        trimmed(seq![c] + name) == trimmed(name),
        trimmed(name.push(c)) == trimmed(name),
    decreases name.len(),
{
    assert((seq![c] + name).drop_first() =~= name);
    let padded = name.push(c);
    if name.len() == 0 {
        assert(padded.drop_first() =~= name);
    } else if is_space(name.first()) {
        law_white_space_around_a_name_does_not_matter(name.drop_first(), c);
        assert(padded.drop_first() =~= name.drop_first().push(c));
    } else {
        assert(padded.drop_last() =~= name);
    }
}

proof fn lemma_lower_char(c: char)
    requires
        c as u32 <= 127,
    ensures
        ascii_lower_char(c) as u32 <= 127,
        ascii_lower_char(ascii_lower_char(c)) == ascii_lower_char(c),
        is_space(ascii_lower_char(c)) == is_space(c),
        (ascii_lower_char(c) == ',') == (c == ','),
{
}

proof fn lemma_lower_trim(text: Seq<char>)
    requires
        is_ascii_chars(text),
    ensures
        is_ascii_chars(ascii_lower(text)),
        is_ascii_chars(trimmed(text)),
        trimmed(ascii_lower(text)) == ascii_lower(trimmed(text)),
        ascii_lower(ascii_lower(text)) == ascii_lower(text),
    decreases text.len(),
{
    let lower = ascii_lower(text);
    assert forall|i: int| 0 <= i < text.len() implies '\0' <= #[trigger] lower[i] <= '\u{7f}'
        && ascii_lower_char(lower[i]) == lower[i] && is_space(lower[i]) == is_space(text[i]) by {
        lemma_lower_char(text[i]);
    }
    assert(ascii_lower(lower) =~= lower);
    if text.len() > 0 {
        if is_space(text.first()) {
            lemma_lower_trim(text.drop_first());
            assert(lower.drop_first() =~= ascii_lower(text.drop_first()));
        } else if is_space(text.last()) {
            lemma_lower_trim(text.drop_last());
            assert(lower.drop_last() =~= ascii_lower(text.drop_last()));
        }
    }
}

proof fn lemma_lower_pieces(text: Seq<char>)
    requires
        is_ascii_chars(text),
    ensures
        comma_pieces(ascii_lower(text)) == comma_pieces(text).map_values(
            |piece: Seq<char>| ascii_lower(piece),
        ),
        forall|i: int|
            0 <= i < comma_pieces(text).len() ==> is_ascii_chars(#[trigger] comma_pieces(text)[i]),
    decreases text.len(),
{
    let lower = ascii_lower(text);
    let to_lower = |piece: Seq<char>| ascii_lower(piece);
    if text.len() == 0 {
        assert(lower =~= text);
        assert(ascii_lower(Seq::empty()) =~= Seq::<char>::empty());
        assert(comma_pieces(lower) =~= comma_pieces(text).map_values(to_lower));
    } else {
        let rest = text.drop_last();
        let pieces = comma_pieces(rest);
        lemma_lower_pieces(rest);
        lemma_pieces_nonempty(rest);
        lemma_lower_char(text.last());
        assert(lower.drop_last() =~= ascii_lower(rest));
        assert(lower.last() == ascii_lower_char(text.last()));
        if text.last() == ',' {
            assert(ascii_lower(Seq::empty()) =~= Seq::<char>::empty());
        } else {
            assert(ascii_lower(pieces.last().push(text.last())) =~= ascii_lower(pieces.last()).push(
                ascii_lower_char(text.last()),
            ));
        }
        assert(comma_pieces(lower) =~= comma_pieces(text).map_values(to_lower));
    }
}

/// The case of the letters in an ASCII list does not matter.
pub proof fn law_ascii_case_does_not_matter(text: Seq<char>)
    requires
        is_ascii_chars(text),
    ensures
        names_in(ascii_lower(text)) == names_in(text),
{
    lemma_lower_pieces(text);
    let pieces = comma_pieces(text);
    let lower_pieces = comma_pieces(ascii_lower(text));
    assert forall|i: int| 0 <= i < pieces.len() implies lowered(trimmed(lower_pieces[i]))
        == lowered(trimmed(#[trigger] pieces[i])) by {
        lemma_lower_trim(pieces[i]);
        lemma_lower_trim(trimmed(pieces[i]));
    }
    assert(names_in(ascii_lower(text)) =~= names_in(text));
}

/// The packets of a run have different numbers, none of which is the warm-up's.
pub proof fn law_packet_numbers_are_unique(numbered: Seq<(u64, Vec<u8>)>, payloads: Seq<Vec<u8>>)
    requires
        numbers(numbered, payloads),
        payloads.len() <= u64::MAX,
    ensures
        forall|i: int, j: int|
            0 <= i < j < numbered.len() ==> (#[trigger] numbered[i]).0 != (
            #[trigger] numbered[j]).0,
        forall|i: int|
            0 <= i < numbered.len() ==> (#[trigger] numbered[i]).0 != WARMUP_SEQUENCE_ID,
{
}

/// Lowering an ASCII text turns its capital letters into the small ones and leaves every
/// other character.
pub proof fn law_lower_case_of_letters(text: Seq<char>, i: int)
    requires
        is_ascii_chars(text),
        0 <= i < text.len(),
    ensures
        lowered(text).len() == text.len(),
        'A' <= text[i] && text[i] <= 'Z' ==> lowered(text)[i] as u32 - 'a' as u32 == text[i] as u32
            - 'A' as u32,
        !('A' <= text[i] && text[i] <= 'Z') ==> lowered(text)[i] == text[i],
{
}

/// Pieces with a comma between each two.
pub open spec fn joined(pieces: Seq<Seq<char>>) -> Seq<char>
    decreases pieces.len(),
{
    if pieces.len() == 0 {
        Seq::empty()
    } else if pieces.len() == 1 {
        pieces[0]
    } else {
        joined(pieces.drop_last()).push(',') + pieces.last()
    }
}

/// Cutting a text at its commas loses nothing: no piece holds a comma, and the pieces with
/// commas between them are the text.
pub proof fn law_pieces_join_to_the_text(text: Seq<char>)
    ensures
        comma_pieces(text).len() > 0,
        joined(comma_pieces(text)) == text,
        forall|i: int|
            0 <= i < comma_pieces(text).len() ==> !(#[trigger] comma_pieces(text)[i]).contains(','),
    decreases text.len(),
{
    let pieces = comma_pieces(text);
    if text.len() == 0 {
        assert(joined(pieces) =~= text);
    } else {
        let rest = text.drop_last();
        let c = text.last();
        let before = comma_pieces(rest);
        law_pieces_join_to_the_text(rest);
        assert(text =~= rest.push(c));
        if c == ',' {
            assert(pieces.drop_last() =~= before);
            assert(joined(pieces) =~= text);
        } else {
            let n = before.len() - 1;
            assert(pieces.drop_last() =~= before.drop_last());
            assert(pieces.last() == before.last().push(c));
            assert forall|i: int| 0 <= i < pieces.len() implies !(#[trigger] pieces[i]).contains(
                ',',
            ) by {
                assert(!before[i].contains(','));
                if i == n && pieces[i].contains(',') {
                    let k = choose|k: int| 0 <= k < pieces[i].len() && pieces[i][k] == ',';
                    assert(before[i][k] == ',');
                }
            }
            assert(joined(pieces) =~= text);
        }
    }
}

/// Where a stretch of a text begins and ends once white space is taken off.
proof fn lemma_trimmed_range(text: Seq<char>) -> (range: (int, int))
    ensures
        0 <= range.0 <= range.1 <= text.len(),
        trimmed(text) == text.subrange(range.0, range.1),
        forall|i: int| 0 <= i < range.0 ==> is_space(#[trigger] text[i]),
        forall|i: int| range.1 <= i < text.len() ==> is_space(#[trigger] text[i]),
    decreases text.len(),
{
    if text.len() > 0 && is_space(text.first()) {
        let inner = text.drop_first();
        let (from, to) = lemma_trimmed_range(inner);
        assert(inner.subrange(from, to) =~= text.subrange(from + 1, to + 1));
        assert forall|i: int| 0 <= i < from + 1 implies is_space(#[trigger] text[i]) by {
            if i > 0 {
                assert(inner[i - 1] == text[i]);
            }
        }
        assert forall|i: int| to + 1 <= i < text.len() implies is_space(#[trigger] text[i]) by {
            assert(inner[i - 1] == text[i]);
        }
        (from + 1, to + 1)
    } else if text.len() > 0 && is_space(text.last()) {
        let inner = text.drop_last();
        let (from, to) = lemma_trimmed_range(inner);
        assert(inner.subrange(from, to) =~= text.subrange(from, to));
        assert forall|i: int| 0 <= i < from implies is_space(#[trigger] text[i]) by {
            assert(inner[i] == text[i]);
        }
        assert forall|i: int| to <= i < text.len() implies is_space(#[trigger] text[i]) by {
            if i < text.len() - 1 {
                assert(inner[i] == text[i]);
            }
        }
        (from, to)
    } else {
        assert(text.subrange(0, text.len() as int) =~= text);
        (0, text.len() as int)
    }
}

/// Trimming takes white space off both ends of a text, all of it, and nothing else.
pub proof fn law_trimming_takes_white_space_off_the_ends(text: Seq<char>)
    ensures
        exists|from: int, to: int|
            #![trigger text.subrange(from, to)]
            0 <= from <= to <= text.len() && trimmed(text) == text.subrange(from, to) && (forall|
                i: int,
            |
                0 <= i < text.len() && (i < from || i >= to) ==> is_space(#[trigger] text[i])),
        trimmed(text).len() > 0 ==> !is_space(trimmed(text).first()) && !is_space(
            trimmed(text).last(),
        ),
    decreases text.len(),
{
    let (from, to) = lemma_trimmed_range(text);
    assert(trimmed(text) == text.subrange(from, to));
    if text.len() > 0 && is_space(text.first()) {
        law_trimming_takes_white_space_off_the_ends(text.drop_first());
    } else if text.len() > 0 && is_space(text.last()) {
        law_trimming_takes_white_space_off_the_ends(text.drop_last());
    }
}

/// A text without commas asks for one name: itself, trimmed and in lower case.
pub proof fn law_text_without_commas_is_one_name(text: Seq<char>)
    requires
        !text.contains(','),
    ensures
        names_in(text) == seq![lowered(trimmed(text))],
{
    lemma_one_piece(text);
    assert(names_in(text) =~= seq![lowered(trimmed(text))]);
}

proof fn lemma_one_piece(text: Seq<char>)
    requires
        !text.contains(','),
    ensures
        comma_pieces(text) == seq![text],
    decreases text.len(),
{
    if text.len() > 0 {
        let rest = text.drop_last();
        assert(!rest.contains(',')) by {
            if rest.contains(',') {
                let k = choose|k: int| 0 <= k < rest.len() && rest[k] == ',';
                assert(text[k] == ',');
            }
        }
        assert(text.last() != ',') by {
            assert(text[text.len() - 1] == text.last());
        }
        lemma_one_piece(rest);
        assert(rest.push(text.last()) =~= text);
        assert(comma_pieces(text) =~= seq![text]);
    } else {
        assert(text =~= Seq::empty());
    }
}

/// Numbering keeps every payload byte for byte, at its place, under that place's number.
pub proof fn law_numbering_keeps_payloads(
    numbered: Seq<(u64, Vec<u8>)>,
    payloads: Seq<Vec<u8>>,
    i: int,
)
    requires
        numbers(numbered, payloads),
        0 <= i < payloads.len(),
    ensures
        numbered.len() == payloads.len(),
        numbered[i].0 == i,
        numbered[i].1@ == payloads[i]@,
{
}

} // verus!
