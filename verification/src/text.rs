//! Operations on text, over the characters that it consists of.
use vstd::prelude::*;
use vstd::string::*;

verus! {

pub open spec fn has_prefix(text: Seq<char>, prefix: Seq<char>) -> bool {
    prefix.len() <= text.len() && text.take(prefix.len() as int) == prefix
}

/// The characters of a text.
pub fn characters(text: &str) -> (r: Vec<char>)
    ensures
        r@ == text@,
{
    let mut list: Vec<char> = Vec::new();
    for c in it: text.chars()
        invariant
            it.seq() == text@,
            list@ == text@.take(it.index()),
    {
        list.push(c);
    }
    list
}

pub fn starts_with(text: &str, prefix: &str) -> (r: bool)
    ensures
        r == has_prefix(text@, prefix@),
{
    let a = characters(text);
    let b = characters(prefix);
    if b.len() > a.len() {
        return false;
    }
    for i in 0..b.len()
        invariant
            b@.len() <= a@.len(),
            a@ == text@,
            b@ == prefix@,
            forall|j: int| 0 <= j < i ==> a@[j] == b@[j],
    {
        if a[i] != b[i] {
            assert(text@.take(prefix@.len() as int)[i as int] != prefix@[i as int]);
            return false;
        }
    }
    assert(text@.take(prefix@.len() as int) =~= prefix@);
    true
}

/// The characters that separate words.
pub open spec fn white_space(c: char) -> bool {
    let code = c as u32;
    ||| 0x9 <= code <= 0xd
    ||| code == 0x20
    ||| code == 0x85
    ||| code == 0xa0
    ||| code == 0x1680
    ||| 0x2000 <= code <= 0x200a
    ||| code == 0x2028
    ||| code == 0x2029
    ||| code == 0x202f
    ||| code == 0x205f
    ||| code == 0x3000
}

/// A text without any character but white space.
pub open spec fn blank(text: Seq<char>) -> bool {
    forall|i: int| 0 <= i < text.len() ==> white_space(#[trigger] text[i])
}

pub fn is_white_space(c: char) -> (r: bool)
    ensures
        r == white_space(c),
{
    let code: u32 = c as u32;
    (0x9 <= code && code <= 0xd) || code == 0x20 || code == 0x85 || code == 0xa0 || code == 0x1680
        || (0x2000 <= code && code <= 0x200a) || code == 0x2028 || code == 0x2029 || code == 0x202f
        || code == 0x205f || code == 0x3000
}

pub fn is_blank(text: &str) -> (r: bool)
    ensures
        r == blank(text@),
{
    let list = characters(text);
    for i in 0..list.len()
        invariant
            list@ == text@,
            forall|j: int| 0 <= j < i ==> white_space(#[trigger] text@[j]),
    {
        if !is_white_space(list[i]) {
            assert(!white_space(text@[i as int]));
            return false;
        }
    }
    true
}

pub fn same_text(a: &str, b: &str) -> (r: bool)
    ensures
        r == (a@ == b@),
{
    a.to_owned() == b.to_owned()
}

/// A text without the white space at its start.
pub open spec fn trim_start(text: Seq<char>) -> Seq<char>
    decreases text.len(),
{
    if text.len() == 0 || !white_space(text[0]) {
        text
    } else {
        trim_start(text.drop_first())
    }
}

/// A text without the white space at its end.
pub open spec fn trim_end(text: Seq<char>) -> Seq<char>
    decreases text.len(),
{
    if text.len() == 0 || !white_space(text.last()) {
        text
    } else {
        trim_end(text.drop_last())
    }
}

pub open spec fn trimmed(text: Seq<char>) -> Seq<char> {
    trim_end(trim_start(text))
}

/// The characters of a text without the white space around it.
pub fn trim(text: &str) -> (r: Vec<char>)
    ensures
        r@ == trimmed(text@),
{
    let list = characters(text);
    let mut start: usize = 0;
    assert(list@.skip(0) == list@);
    while start < list.len() && is_white_space(list[start])
        invariant
            list@ == text@,
            start <= list@.len(),
            trim_start(text@) == trim_start(list@.skip(start as int)),
        decreases list@.len() - start,
    {
        assert(list@.skip(start as int).drop_first() == list@.skip(start + 1));
        start = start + 1;
    }
    let mut end: usize = list.len();
    assert(list@.subrange(start as int, end as int) == list@.skip(start as int));
    while end > start && is_white_space(list[end - 1])
        invariant
            list@ == text@,
            start <= end <= list@.len(),
            trimmed(text@) == trim_end(list@.subrange(start as int, end as int)),
        decreases end,
    {
        assert(list@.subrange(start as int, end as int).drop_last() == list@.subrange(
            start as int,
            end - 1,
        ));
        end = end - 1;
    }
    let mut kept: Vec<char> = Vec::new();
    for i in start..end
        invariant
            start <= end <= list@.len(),
            kept@ == list@.subrange(start as int, i as int),
    {
        kept.push(list[i]);
        assert(list@.subrange(start as int, i + 1) == list@.subrange(start as int, i as int).push(
            list@[i as int],
        ));
    }
    kept
}

/// `String::push` appends one character.
pub assume_specification[ String::push ](text: &mut String, c: char)
    ensures
        final(text)@ == old(text)@.push(c),
;

/// The text that consists of some characters.
pub fn from_characters(list: &Vec<char>) -> (r: String)
    ensures
        r@ == list@,
{
    let mut text = String::new();
    for i in 0..list.len()
        invariant
            text@ == list@.take(i as int),
    {
        text.push(list[i]);
        assert(list@.take(i + 1) == list@.take(i as int).push(list@[i as int]));
    }
    assert(list@.take(list@.len() as int) == list@);
    text
}

/// Two lists hold the same characters.
pub fn same_characters(a: &Vec<char>, b: &Vec<char>) -> (r: bool)
    ensures
        r == (a@ == b@),
{
    if a.len() != b.len() {
        return false;
    }
    for i in 0..a.len()
        invariant
            a@.len() == b@.len(),
            forall|j: int| 0 <= j < i ==> a@[j] == b@[j],
    {
        if a[i] != b[i] {
            assert(a@[i as int] != b@[i as int]);
            return false;
        }
    }
    assert(a@ =~= b@);
    true
}

/// The number of bytes of a text in UTF-8.
pub open spec fn byte_count(text: Seq<char>) -> nat {
    vstd::utf8::encode_utf8(text).len()
}

pub fn byte_len(text: &str) -> (r: usize)
    ensures
        r == byte_count(text@),
{
    text.as_bytes().len()
}

/// The pieces between the separators of a text.
pub open spec fn pieces(text: Seq<char>, a: char, b: char) -> Seq<Seq<char>>
    decreases text.len(),
{
    if text.len() == 0 {
        seq![Seq::empty()]
    } else {
        let before = pieces(text.drop_last(), a, b);
        if text.last() == a || text.last() == b {
            before.push(Seq::empty())
        } else {
            before.drop_last().push(before.last().push(text.last()))
        }
    }
}

pub open spec fn views(list: Seq<Vec<char>>) -> Seq<Seq<char>> {
    list.map_values(|piece: Vec<char>| piece@)
}

/// Splits a text at two separators.
pub fn split(text: &Vec<char>, a: char, b: char) -> (r: Vec<Vec<char>>)
    ensures
        views(r@) == pieces(text@, a, b),
        r@.len() > 0,
{
    let mut done: Vec<Vec<char>> = Vec::new();
    let mut current: Vec<char> = Vec::new();
    assert(views(done@).push(current@) =~= pieces(text@.take(0), a, b));
    for i in 0..text.len()
        invariant
            views(done@).push(current@) == pieces(text@.take(i as int), a, b),
    {
        proof {
            assert(text@.take(i + 1).drop_last() == text@.take(i as int));
            assert(views(done@).push(current@).drop_last() =~= views(done@));
        }
        let c: char = text[i];
        let ghost before = done@;
        if c == a || c == b {
            let ghost last = current@;
            done.push(current);
            current = Vec::new();
            assert(views(done@) =~= views(before).push(last));
        } else {
            current.push(c);
        }
        assert(views(done@).push(current@) =~= pieces(text@.take(i + 1), a, b));
    }
    assert(text@.take(text@.len() as int) == text@);
    let ghost before = done@;
    let ghost last = current@;
    done.push(current);
    assert(views(done@) =~= views(before).push(last));
    done
}

/// The value of a sequence of decimal digits.
pub open spec fn decimal_value(digits: Seq<char>) -> int
    decreases digits.len(),
{
    if digits.len() == 0 {
        0
    } else {
        10 * decimal_value(digits.drop_last()) + (digits.last() as u32 - '0' as u32)
    }
}

pub open spec fn all_digits(text: Seq<char>) -> bool {
    forall|i: int| 0 <= i < text.len() ==> '0' <= #[trigger] text[i] <= '9'
}

/// The number that a text stands for: decimal digits, with a plus sign before them or not.
pub open spec fn number_of(text: Seq<char>) -> Option<int> {
    let digits = if text.len() > 0 && text[0] == '+' {
        text.drop_first()
    } else {
        text
    };
    if digits.len() > 0 && all_digits(digits) {
        Some(decimal_value(digits))
    } else {
        None
    }
}

/// Reads a number that is at most `limit`.
pub fn parse_number(text: &Vec<char>, limit: u64) -> (r: Option<u64>)
    requires
        limit <= 0xffff_ffff_ffff,
    ensures
        match number_of(text@) {
            Some(value) => if value <= limit {
                r matches Some(n) && n == value
            } else {
                r is None
            },
            None => r is None,
        },
{
    let start: usize = if text.len() > 0 && text[0] == '+' {
        1
    } else {
        0
    };
    let ghost digits = text@.skip(start as int);
    assert(start == 0 ==> digits =~= text@);
    assert(start == 1 ==> digits =~= text@.drop_first());
    if text.len() == start {
        return None;
    }
    let mut value: u64 = 0;
    let mut large = false;
    for i in start..text.len()
        invariant
            start <= 1,
            start <= text@.len(),
            limit <= 0xffff_ffff_ffff,
            digits == text@.skip(start as int),
            digits.len() > 0,
            number_of(text@) == (if all_digits(digits) {
                Some(decimal_value(digits))
            } else {
                None
            }),
            forall|j: int| 0 <= j < i - start ==> '0' <= #[trigger] digits[j] <= '9',
            !large ==> value == decimal_value(digits.take(i - start)) && value <= limit,
            large ==> decimal_value(digits.take(i - start)) > limit,
    {
        let c: char = text[i];
        assert(c == digits[i - start]);
        assert(digits.take(i + 1 - start).drop_last() == digits.take(i - start));
        if !('0' <= c && c <= '9') {
            assert(!all_digits(digits));
            return None;
        }
        if !large {
            value = value * 10 + (c as u32 - '0' as u32) as u64;
            if value > limit {
                large = true;
            }
        }
    }
    assert(digits.take(digits.len() as int) == digits);
    if large {
        None
    } else {
        Some(value)
    }
}

/// A text occurs in another one.
pub open spec fn contains_text(text: Seq<char>, part: Seq<char>) -> bool {
    exists|at: int|
        0 <= at <= text.len() - part.len() && #[trigger] text.subrange(at, at + part.len()) == part
}

pub fn contains(text: &str, part: &str) -> (r: bool)
    ensures
        r == contains_text(text@, part@),
{
    let a = characters(text);
    let b = characters(part);
    if b.len() > a.len() {
        return false;
    }
    let length: usize = a.len();
    let last: usize = length - b.len();
    let mut at: usize = 0;
    loop
        invariant
            length == a@.len(),
            a@ == text@,
            b@ == part@,
            at <= last,
            last + b@.len() == a@.len(),
            forall|k: int|
                0 <= k < at ==> #[trigger] text@.subrange(k, k + part@.len()) != part@,
        decreases last - at,
    {
        let mut same = true;
        let mut i: usize = 0;
        while i < b.len() && same
            invariant
                length == a@.len(),
                a@ == text@,
                b@ == part@,
                at <= last,
                last + b@.len() == a@.len(),
                i <= b@.len(),
                same <==> forall|j: int| 0 <= j < i ==> #[trigger] a@[at + j] == b@[j],
            decreases b@.len() - i,
        {
            if a[at + i] != b[i] {
                same = false;
                assert(a@[at + i as int] != b@[i as int]);
            }
            i = i + 1;
        }
        let ghost window = text@.subrange(at as int, at + part@.len());
        if same {
            assert forall|j: int| 0 <= j < part@.len() implies window[j] == part@[j] by {
                assert(a@[at + j] == b@[j]);
            }
            assert(window =~= part@);
            return true;
        }
        proof {
            let j = choose|j: int| 0 <= j < i && #[trigger] a@[at + j] != b@[j];
            assert(window[j] != part@[j]);
        }
        if at == last {
            return false;
        }
        at = at + 1;
    }
}

/// The decimal digits of a number, without needless zeros.
pub open spec fn decimal_of(value: nat) -> Seq<char>
    decreases value,
{
    if value < 10 {
        seq![crate::hex::digit(value as int)]
    } else {
        decimal_of(value / 10).push(crate::hex::digit((value % 10) as int))
    }
}

/// A number in decimal digits.
pub fn decimal(value: u64) -> (r: String)
    ensures
        r@ == decimal_of(value as nat),
    decreases value,
{
    let digits = characters("0123456789abcdef");
    proof {
        reveal_strlit("0123456789abcdef");
    }
    let mut text = if value < 10 {
        String::new()
    } else {
        decimal(value / 10)
    };
    text.push(digits[(value % 10) as usize]);
    assert(value < 10 ==> text@ =~= decimal_of(value as nat));
    text
}

/// A number in decimal digits, with a minus sign where it is negative.
pub open spec fn signed_decimal_of(value: int) -> Seq<char> {
    if value < 0 {
        seq!['-'] + decimal_of((-value) as nat)
    } else {
        decimal_of(value as nat)
    }
}

pub fn signed_decimal(value: i32) -> (r: String)
    ensures
        r@ == signed_decimal_of(value as int),
{
    if value < 0 {
        let mut text = String::new();
        text.push('-');
        assert(text@ =~= seq!['-']);
        let magnitude: i64 = -(value as i64);
        text.append(decimal(magnitude as u64).as_str());
        text
    } else {
        decimal(value as u64)
    }
}

/// Some lines, each but the last with a line end.
pub open spec fn joined(lines: Seq<Seq<char>>) -> Seq<char>
    decreases lines.len(),
{
    if lines.len() == 0 {
        Seq::empty()
    } else if lines.len() == 1 {
        lines[0]
    } else {
        joined(lines.drop_last()) + seq!['\n'] + lines.last()
    }
}

pub open spec fn string_views(list: Seq<String>) -> Seq<Seq<char>> {
    list.map_values(|text: String| text@)
}

/// Joins lines to one text.
pub fn join_lines(lines: &Vec<String>) -> (r: String)
    ensures
        r@ == joined(string_views(lines@)),
{
    let mut text = String::new();
    let ghost all = string_views(lines@);
    assert(text@ =~= joined(all.take(0)));
    for i in 0..lines.len()
        invariant
            all == string_views(lines@),
            text@ == joined(all.take(i as int)),
    {
        assert(all.take(i + 1).drop_last() == all.take(i as int));
        let ghost before = text@;
        if i > 0 {
            text.push('\n');
        }
        text.append(lines[i].as_str());
        assert(text@ =~= joined(all.take(i + 1)));
    }
    assert(all.take(all.len() as int) == all);
    text
}

/// Every letter in lower case.
pub open spec fn lower_case(text: Seq<char>) -> Seq<char> {
    text.map_values(|c: char| crate::bridge::ascii_lower(c))
}

pub fn to_lower_case(text: &Vec<char>) -> (r: Vec<char>)
    ensures
        r@ == lower_case(text@),
{
    let mut list: Vec<char> = Vec::new();
    for i in 0..text.len()
        invariant
            list@ =~= lower_case(text@.take(i as int)),
    {
        list.push(crate::bridge::to_lower(text[i]));
    }
    assert(text@.take(text@.len() as int) == text@);
    list
}

pub open spec fn ascii_upper(c: char) -> char {
    if 'a' <= c <= 'z' {
        ((c as u32 - 32) as u8) as char
    } else {
        c
    }
}

/// Every letter in upper case.
pub open spec fn upper_case(text: Seq<char>) -> Seq<char> {
    text.map_values(|c: char| ascii_upper(c))
}

pub fn to_upper_case(text: &Vec<char>) -> (r: Vec<char>)
    ensures
        r@ == upper_case(text@),
{
    let mut list: Vec<char> = Vec::new();
    for i in 0..text.len()
        invariant
            list@ =~= upper_case(text@.take(i as int)),
    {
        let c: char = text[i];
        list.push(if 'a' <= c && c <= 'z' {
            ((c as u32 - 32) as u8) as char
        } else {
            c
        });
    }
    assert(text@.take(text@.len() as int) == text@);
    list
}

} // verus!
