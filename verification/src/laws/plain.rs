//! Texts and numbers.
use vstd::prelude::*;

verus! {

pub open spec fn occurs_in(text: Seq<char>, part: Seq<char>) -> bool {
    exists|at: int|
        0 <= at <= text.len() - part.len() && #[trigger] text.subrange(at, at + part.len()) == part
}

/// The value of a hexadecimal digit.
pub open spec fn digit(c: char) -> int {
    if '0' <= c <= '9' {
        c as u32 - '0' as u32
    } else if 'a' <= c <= 'f' {
        c as u32 - 'a' as u32 + 10
    } else {
        -1
    }
}

/// A text spells some bytes, each with two digits, the larger part first.
pub open spec fn spells(text: Seq<char>, bytes: Seq<u8>) -> bool {
    &&& text.len() == 2 * bytes.len()
    &&& forall|i: int|
        0 <= i < bytes.len() ==> 16 * digit(text[2 * i]) + digit(text[2 * i + 1]) == #[trigger] bytes[i]
            && 0 <= digit(text[2 * i]) && 0 <= digit(text[2 * i + 1])
}

pub proof fn lemma_hex_spells(bytes: Seq<u8>)
    ensures
        spells(crate::hex::hex_of(bytes), bytes),
{
    reveal_strlit("0123456789abcdef");
    let text = crate::hex::hex_of(bytes);
    assert forall|v: int| 0 <= v < 16 implies digit(#[trigger] crate::hex::digit(v)) == v by {}
    assert forall|i: int| 0 <= i < bytes.len() implies 16 * digit(text[2 * i]) + digit(text[2 * i + 1])
        == #[trigger] bytes[i] && 0 <= digit(text[2 * i]) && 0 <= digit(text[2 * i + 1]) by {
        let byte = bytes[i] as int;
        assert(text[2 * i] == crate::hex::digit(byte / 16));
        assert(text[2 * i + 1] == crate::hex::digit(byte % 16));
        assert(0 <= byte / 16 < 16 && 0 <= byte % 16 < 16);
    }
}

/// Bytes are spelled in hexadecimal digits.
pub proof fn lemma_bytes_are_spelled(content: Seq<u8>)
    ensures
        forall|bytes: &[u8], r: String|
            (#[trigger] call_ensures(crate::hex::encode, (bytes,), r)) && bytes@ == content ==> spells(
                r@,
                content,
            ),
{
    lemma_hex_spells(content);
}

/// The number that decimal digits stand for.
pub open spec fn reads(text: Seq<char>) -> int
    decreases text.len(),
{
    if text.len() == 0 {
        0
    } else {
        10 * reads(text.drop_last()) + digit(text.last())
    }
}

pub open spec fn decimal_digits(text: Seq<char>) -> bool {
    forall|i: int| 0 <= i < text.len() ==> '0' <= #[trigger] text[i] <= '9'
}

proof fn lemma_decimal(value: nat)
    ensures
        reads(crate::text::decimal_of(value)) == value,
        decimal_digits(crate::text::decimal_of(value)),
        crate::text::decimal_of(value).len() > 0,
        value > 0 ==> crate::text::decimal_of(value)[0] != '0',
    decreases value,
{
    reveal_strlit("0123456789abcdef");
    assert forall|v: int| 0 <= v < 10 implies digit(#[trigger] crate::hex::digit(v)) == v && '0'
        <= crate::hex::digit(v) <= '9' && (v > 0 ==> crate::hex::digit(v) != '0') by {}
    let text = crate::text::decimal_of(value);
    if value < 10 {
        assert(text.drop_last() =~= Seq::<char>::empty());
        assert(reads(Seq::<char>::empty()) == 0);
        assert(text.last() == crate::hex::digit(value as int));
    } else {
        lemma_decimal(value / 10);
        let before = crate::text::decimal_of(value / 10);
        assert(text.drop_last() =~= before);
        assert(text.last() == crate::hex::digit((value % 10) as int));
        assert(text[0] == before[0]);
        assert forall|i: int| 0 <= i < text.len() implies '0' <= #[trigger] text[i] <= '9' by {
            if i < before.len() {
                assert(text[i] == before[i]);
            }
        }
    }
}

pub proof fn lemma_reads(text: Seq<char>)
    requires
        decimal_digits(text),
    ensures
        crate::text::decimal_value(text) == reads(text),
    decreases text.len(),
{
    if text.len() > 0 {
        let less = text.drop_last();
        assert forall|i: int| 0 <= i < less.len() implies '0' <= #[trigger] less[i] <= '9' by {
            assert(less[i] == text[i]);
        }
        lemma_reads(less);
        assert('0' <= text[text.len() - 1] <= '9');
    }
}

/// A number is written in decimal digits that stand for it, without a zero in front; a negative one
/// has a minus sign before the digits of its amount.
pub proof fn lemma_numbers_are_written(value: u64, signed: i32)
    ensures
        forall|r: String|
            (#[trigger] call_ensures(crate::text::decimal, (value,), r)) ==> {
                &&& decimal_digits(r@) && r@.len() > 0
                &&& reads(r@) == value
                &&& value > 0 ==> r@[0] != '0'
            },
        forall|r: String|
            (#[trigger] call_ensures(crate::text::signed_decimal, (signed,), r)) ==> {
                &&& signed >= 0 ==> decimal_digits(r@) && reads(r@) == signed
                &&& signed < 0 ==> r@[0] == '-' && decimal_digits(r@.skip(1)) && reads(r@.skip(1))
                    == -signed
            },
{
    lemma_decimal(value as nat);
    if signed >= 0 {
        lemma_decimal(signed as nat);
    } else {
        let digits = crate::text::decimal_of((-signed) as nat);
        lemma_decimal((-signed) as nat);
        assert((seq!['-'] + digits).skip(1) =~= digits);
    }
}

/// A number is read from the digits that stand for it, up to a limit, with a plus sign before them
/// or not; nothing else is a number.
pub proof fn lemma_numbers_are_read(content: Seq<char>, limit: u64)
    ensures
        forall|text: &Vec<char>, r: Option<u64>|
            (#[trigger] call_ensures(crate::text::parse_number, (text, limit), r)) && text@ == content ==> {
                let digits = if content.len() > 0 && content[0] == '+' {
                    content.skip(1)
                } else {
                    content
                };
                &&& r is Some <==> digits.len() > 0 && decimal_digits(digits) && reads(digits) <= limit
                &&& r is Some ==> r->0 == reads(digits)
            },
{
    let digits = if content.len() > 0 && content[0] == '+' {
        content.skip(1)
    } else {
        content
    };
    assert(content.len() > 0 ==> content.skip(1) =~= content.drop_first());
    if decimal_digits(digits) {
        lemma_reads(digits);
    }
}

/// White space as it counts for trimming: tabs, line ends, spaces.
pub open spec fn common_space(c: char) -> bool {
    c == ' ' || c == '\t' || c == '\n' || c == '\r'
}

/// Trimming takes white space off both ends, and only that.
pub proof fn lemma_trimming_takes_only_space(content: Seq<char>)
    ensures
        forall|text: &str, r: Vec<char>|
            (#[trigger] call_ensures(crate::text::trim, (text,), r)) && text@ == content ==> trims(
                content,
                r@,
            ),
        forall|c: char, r: bool|
            (#[trigger] call_ensures(crate::text::is_white_space, (c,), r)) ==> {
                &&& common_space(c) ==> r
                &&& ' ' < c <= '~' ==> !r
            },
{
    lemma_trim(content);
}

pub open spec fn trims(text: Seq<char>, kept: Seq<char>) -> bool {
    &&& kept.len() > 0 ==> !common_space(kept[0]) && !common_space(kept.last())
    &&& exists|start: int|
        0 <= start <= text.len() - kept.len() && #[trigger] text.subrange(start, start + kept.len())
            == kept && (forall|i: int|
            0 <= i < text.len() && (i < start || i >= start + kept.len()) ==> !(' ' < (
            #[trigger] text[i]) <= '~'))
}

proof fn lemma_trim(text: Seq<char>)
    ensures
        trims(text, crate::text::trimmed(text)),
{
    let rest = crate::text::trim_start(text);
    let kept = crate::text::trimmed(text);
    lemma_trim_start(text);
    lemma_trim_end(rest);
    let start = text.len() - rest.len();
    assert(text.subrange(start, start + kept.len()) =~= kept) by {
        assert forall|i: int| 0 <= i < kept.len() implies text[start + i] == kept[i] by {
            assert(rest[i] == text[start + i]);
        }
    }
    assert forall|i: int| 0 <= i < text.len() && (i < start || i >= start + kept.len()) implies !(' ' < (
    #[trigger] text[i]) <= '~') by {
        if i >= start {
            assert(rest[i - start] == text[i]);
            assert(crate::text::white_space(rest[i - start]));
        } else {
            assert(crate::text::white_space(text[i]));
        }
    }
    if kept.len() > 0 {
        assert(kept[0] == rest[0]);
    }
}

proof fn lemma_trim_start(text: Seq<char>)
    ensures
        ({
            let rest = crate::text::trim_start(text);
            let start = text.len() - rest.len();
            &&& start >= 0
            &&& rest == text.skip(start)
            &&& forall|i: int| 0 <= i < start ==> crate::text::white_space(#[trigger] text[i])
            &&& rest.len() > 0 ==> !crate::text::white_space(rest[0])
        }),
    decreases text.len(),
{
    if text.len() > 0 && crate::text::white_space(text[0]) {
        let less = text.drop_first();
        lemma_trim_start(less);
        let rest = crate::text::trim_start(text);
        let start = text.len() - rest.len();
        assert(rest =~= text.skip(start));
        assert forall|i: int| 0 <= i < start implies crate::text::white_space(#[trigger] text[i]) by {
            if i > 0 {
                assert(less[i - 1] == text[i]);
            }
        }
    } else {
        assert(text.skip(0) =~= text);
    }
}

proof fn lemma_trim_end(text: Seq<char>)
    ensures
        ({
            let kept = crate::text::trim_end(text);
            &&& kept.len() <= text.len()
            &&& kept == text.take(kept.len() as int)
            &&& forall|i: int| kept.len() <= i < text.len() ==> crate::text::white_space(#[trigger] text[i])
            &&& kept.len() > 0 ==> !crate::text::white_space(kept.last())
        }),
    decreases text.len(),
{
    if text.len() > 0 && crate::text::white_space(text.last()) {
        let less = text.drop_last();
        lemma_trim_end(less);
        let kept = crate::text::trim_end(text);
        assert(kept =~= text.take(kept.len() as int));
        assert forall|i: int| kept.len() <= i < text.len() implies crate::text::white_space(
            #[trigger] text[i],
        ) by {
            if i < less.len() {
                assert(less[i] == text[i]);
            }
        }
    } else {
        assert(text.take(text.len() as int) =~= text);
    }
}

/// Splitting leaves no separator in the pieces, and as many pieces as separators and one more.
pub proof fn lemma_splitting_keeps_everything_else(text: Seq<char>, a: char, b: char)
    ensures
        ({
            let list = crate::text::pieces(text, a, b);
            &&& list.len() > 0
            &&& forall|i: int, k: int|
                0 <= i < list.len() && 0 <= k < list[i].len() ==> #[trigger] list[i][k] != a && list[i][k]
                    != b
            &&& glued(list) == text.filter(|c: char| c != a && c != b)
        }),
    decreases text.len(),
{
    reveal(Seq::filter);
    let list = crate::text::pieces(text, a, b);
    if text.len() == 0 {
        assert(list =~= seq![Seq::<char>::empty()]);
        assert(list.drop_last() =~= Seq::<Seq<char>>::empty());
        assert(glued(list.drop_last()) =~= Seq::<char>::empty());
        assert(glued(list) =~= Seq::<char>::empty());
    } else {
        lemma_splitting_keeps_everything_else(text.drop_last(), a, b);
        let before = crate::text::pieces(text.drop_last(), a, b);
        if text.last() == a || text.last() == b {
            assert(list.drop_last() =~= before);
            assert(glued(list) =~= glued(before));
        } else {
            assert(list.drop_last() =~= before.drop_last());
            assert(glued(list) =~= glued(before).push(text.last()));
        }
    }
}

/// The pieces one behind the other.
pub open spec fn glued(list: Seq<Seq<char>>) -> Seq<char>
    decreases list.len(),
{
    if list.len() == 0 {
        Seq::empty()
    } else {
        glued(list.drop_last()) + list.last()
    }
}

/// A text starts with another one exactly if something can be put behind the other to get it; texts
/// are the same character by character.
pub proof fn lemma_prefixes(content: Seq<char>, start: Seq<char>)
    ensures
        forall|text: &str, prefix: &str, r: bool|
            (#[trigger] call_ensures(crate::text::starts_with, (text, prefix), r)) && text@ == content
                && prefix@ == start ==> (r <==> start.len() <= content.len() && forall|i: int|
                0 <= i < start.len() ==> #[trigger] start[i] == content[i]),
        forall|a: &str, b: &str, r: bool|
            (#[trigger] call_ensures(crate::text::same_text, (a, b), r)) ==> r == (a@ == b@),
        forall|text: &str, part: &str, r: bool|
            (#[trigger] call_ensures(crate::text::contains, (text, part), r)) ==> r == occurs_in(
                text@,
                part@,
            ),
{
    assert(start.len() <= content.len() && (forall|i: int|
        0 <= i < start.len() ==> #[trigger] start[i] == content[i]) ==> content.take(start.len() as int)
        =~= start);
    if crate::text::has_prefix(content, start) {
        assert forall|i: int| 0 <= i < start.len() implies #[trigger] start[i] == content[i] by {
            assert(content.take(start.len() as int)[i] == content[i]);
        }
    }
}

/// Letters change their case and nothing else changes.
pub proof fn lemma_cases(content: Seq<char>)
    ensures
        forall|text: &Vec<char>, r: Vec<char>|
            (#[trigger] call_ensures(crate::text::to_lower_case, (text,), r)) && text@ == content ==> {
                &&& r@.len() == content.len()
                &&& forall|i: int|
                    0 <= i < content.len() ==> (if 'A' <= content[i] <= 'Z' {
                        (#[trigger] r@[i]) as u32 == content[i] as u32 + 32
                    } else {
                        r@[i] == content[i]
                    })
            },
        forall|text: &Vec<char>, r: Vec<char>|
            (#[trigger] call_ensures(crate::text::to_upper_case, (text,), r)) && text@ == content ==> {
                &&& r@.len() == content.len()
                &&& forall|i: int|
                    0 <= i < content.len() ==> (if 'a' <= content[i] <= 'z' {
                        (#[trigger] r@[i]) as u32 == content[i] as u32 - 32
                    } else {
                        r@[i] == content[i]
                    })
            },
{
}

/// Lines are joined in their order, with one line end between two of them.
pub proof fn lemma_lines_are_joined(lines: Seq<Seq<char>>, next: Seq<char>)
    ensures
        crate::text::joined(Seq::<Seq<char>>::empty()).len() == 0,
        crate::text::joined(seq![next]) == next,
        lines.len() > 0 ==> ({
            let before = crate::text::joined(lines);
            let after = crate::text::joined(lines.push(next));
            &&& after.len() == before.len() + 1 + next.len()
            &&& after.take(before.len() as int) == before
            &&& after[before.len() as int] == '\n'
            &&& after.skip(before.len() as int + 1) == next
        }),
{
    if lines.len() > 0 {
        let before = crate::text::joined(lines);
        let after = crate::text::joined(lines.push(next));
        assert(lines.push(next).drop_last() =~= lines);
        assert(after.take(before.len() as int) =~= before);
        assert(after.skip(before.len() as int + 1) =~= next);
    }
}

} // verus!
