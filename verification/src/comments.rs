//! The comments of a configuration file. A change of the file keeps every one of them.
use crate::error::Error;
use crate::text::{characters, same_characters};
use vstd::prelude::*;

verus! {

/// Where in a text something stands: outside strings, or in a string of some kind.
#[derive(Clone, Copy, PartialEq, Eq, Structural)]
pub enum Place {
    Outside,
    Basic,
    Literal,
    LongBasic,
    LongLiteral,
}

/// One step through a text: where the next one starts, in which place, and the comment that was
/// passed.
pub ghost struct Step {
    pub at: int,
    pub place: Place,
    pub comment: Option<Seq<char>>,
}

/// The number of characters from an index on.
pub open spec fn rest_len(text: Seq<char>, at: int) -> int {
    if at < text.len() {
        text.len() - at
    } else {
        0
    }
}

pub open spec fn is_at(text: Seq<char>, at: int, c: char) -> bool {
    0 <= at < text.len() && text[at] == c
}

/// Three times the same character.
pub open spec fn triple(text: Seq<char>, at: int, c: char) -> bool {
    is_at(text, at, c) && is_at(text, at + 1, c) && is_at(text, at + 2, c)
}

/// The end of a long string: a run of quotes ends it with its last three.
pub open spec fn closes_long(text: Seq<char>, at: int, c: char) -> bool {
    triple(text, at, c) && !is_at(text, at + 3, c)
}

/// The end of the line that an index lies in.
pub open spec fn line_end(text: Seq<char>, at: int) -> int
    decreases text.len() - at,
{
    if at >= text.len() {
        text.len() as int
    } else if text[at] == '\n' || text[at] == '\r' {
        at
    } else {
        line_end(text, at + 1)
    }
}

/// The step from an index of a text. A comment goes from a hash sign outside strings to the end of
/// the line. Short strings end with their line at the latest.
pub open spec fn step(text: Seq<char>, at: int, place: Place) -> Step {
    let c = text[at];
    match place {
        Place::Outside => if c == '#' {
            let end = line_end(text, at);
            Step { at: end, place, comment: Some(text.subrange(at, end)) }
        } else if triple(text, at, '"') {
            Step { at: at + 3, place: Place::LongBasic, comment: None }
        } else if triple(text, at, '\'') {
            Step { at: at + 3, place: Place::LongLiteral, comment: None }
        } else if c == '"' {
            Step { at: at + 1, place: Place::Basic, comment: None }
        } else if c == '\'' {
            Step { at: at + 1, place: Place::Literal, comment: None }
        } else {
            Step { at: at + 1, place, comment: None }
        },
        Place::Basic => if c == '\\' {
            Step { at: at + 2, place, comment: None }
        } else if c == '"' || c == '\n' {
            Step { at: at + 1, place: Place::Outside, comment: None }
        } else {
            Step { at: at + 1, place, comment: None }
        },
        Place::Literal => if c == '\'' || c == '\n' {
            Step { at: at + 1, place: Place::Outside, comment: None }
        } else {
            Step { at: at + 1, place, comment: None }
        },
        Place::LongBasic => if c == '\\' {
            Step { at: at + 2, place, comment: None }
        } else if closes_long(text, at, '"') {
            Step { at: at + 3, place: Place::Outside, comment: None }
        } else {
            Step { at: at + 1, place, comment: None }
        },
        Place::LongLiteral => if closes_long(text, at, '\'') {
            Step { at: at + 3, place: Place::Outside, comment: None }
        } else {
            Step { at: at + 1, place, comment: None }
        },
    }
}

pub open spec fn comments_from(text: Seq<char>, at: int, place: Place) -> Seq<Seq<char>>
    decreases rest_len(text, at),
{
    let next = step(text, at, place);
    if at < 0 || at >= text.len() || next.at <= at {
        Seq::empty()
    } else {
        match next.comment {
            Some(comment) => seq![comment] + comments_from(text, next.at, next.place),
            None => comments_from(text, next.at, next.place),
        }
    }
}

/// The comments of a text, in order.
pub open spec fn comments(text: Seq<char>) -> Seq<Seq<char>> {
    comments_from(text, 0, Place::Outside)
}

pub open spec fn final_place(text: Seq<char>, at: int, place: Place) -> Place
    decreases rest_len(text, at),
{
    let next = step(text, at, place);
    if at < 0 || at >= text.len() || next.at <= at {
        place
    } else {
        final_place(text, next.at, next.place)
    }
}

/// Every string of a text is closed.
pub open spec fn closed(text: Seq<char>) -> bool {
    final_place(text, 0, Place::Outside) == Place::Outside
}

/// Every comment of a text stands in another text as well.
pub open spec fn keeps_comments(before: Seq<char>, after: Seq<char>) -> bool {
    forall|comment: Seq<char>| #[trigger]
        comments(before).contains(comment) ==> comments(after).contains(comment)
}

/// A character that a comment can hold.
pub open spec fn comment_character(c: char) -> bool {
    c == '\t' || (' ' <= c && c != '\u{7f}')
}

/// A line that is nothing but a comment.
pub open spec fn comment_line(line: Seq<char>) -> bool {
    &&& line.len() > 0
    &&& line[0] == '#'
    &&& forall|i: int| 0 <= i < line.len() ==> comment_character(#[trigger] line[i])
}

/// Every comment of a text can stand on a line of its own.
pub open spec fn comments_writable(text: Seq<char>) -> bool {
    forall|i: int| 0 <= i < comments(text).len() ==> comment_line(#[trigger] comments(text)[i])
}

/// A line end, and then only lines that are comments or empty.
pub open spec fn only_comments(text: Seq<char>) -> bool {
    &&& is_at(text, 0, '\n')
    &&& forall|i: int|
        0 <= i < text.len() ==> (#[trigger] text[i]) == '\n' || comment_character(text[i])
    &&& forall|i: int|
        0 < i < text.len() && text[i - 1] == '\n' ==> (#[trigger] text[i]) == '\n' || text[i] == '#'
}

proof fn lemma_line_end(text: Seq<char>, at: int)
    requires
        0 <= at <= text.len(),
    ensures
        at <= line_end(text, at) <= text.len(),
        is_at(text, at, '#') ==> line_end(text, at) > at,
    decreases text.len() - at,
{
    if at < text.len() {
        lemma_line_end(text, at + 1);
    }
}

/// The end of a line does not depend on what stands behind it.
proof fn lemma_line_end_of_part(a: Seq<char>, b: Seq<char>, at: int)
    requires
        0 <= at <= a.len(),
        is_at(b, 0, '\n'),
    ensures
        line_end(a + b, at) == line_end(a, at),
    decreases a.len() - at,
{
    if at < a.len() {
        assert((a + b)[at] == a[at]);
        lemma_line_end_of_part(a, b, at + 1);
    } else {
        assert((a + b)[at] == b[0]);
    }
}

/// A step inside the first of two texts does not depend on the second one.
proof fn lemma_step_of_part(a: Seq<char>, b: Seq<char>, at: int, place: Place)
    requires
        0 <= at < a.len(),
        is_at(b, 0, '\n'),
    ensures
        step(a + b, at, place) == step(a, at, place),
        step(a, at, place).at > at,
{
    let whole = a + b;
    assert(whole[at] == a[at]);
    assert(whole[a.len() as int] == '\n');
    assert forall|i: int| 0 <= i < a.len() implies whole[i] == a[i] by {}
    assert(triple(whole, at, '"') == triple(a, at, '"'));
    assert(triple(whole, at, '\'') == triple(a, at, '\''));
    lemma_line_end(a, at);
    lemma_line_end_of_part(a, b, at);
    assert(whole.subrange(at, line_end(a, at)) =~= a.subrange(at, line_end(a, at)));
}

/// The end of a line in the second of two texts.
proof fn lemma_line_end_behind(a: Seq<char>, b: Seq<char>, at: int)
    requires
        0 <= at <= b.len(),
    ensures
        line_end(a + b, a.len() + at) == a.len() + line_end(b, at),
    decreases b.len() - at,
{
    if at < b.len() {
        assert((a + b)[a.len() + at] == b[at]);
        lemma_line_end_behind(a, b, at + 1);
    }
}

/// Steps in the second of two texts do not depend on the first one.
pub proof fn lemma_behind(a: Seq<char>, b: Seq<char>, at: int, place: Place)
    requires
        0 <= at,
    ensures
        comments_from(a + b, a.len() + at, place) == comments_from(b, at, place),
        final_place(a + b, a.len() + at, place) == final_place(b, at, place),
    decreases rest_len(b, at),
{
    if at < b.len() {
        let whole = a + b;
        let n = a.len() as int;
        assert forall|i: int, c: char| 0 <= i implies #[trigger] is_at(whole, n + i, c) == is_at(
            b,
            i,
            c,
        ) by {
            if i < b.len() {
                assert(whole[n + i] == b[i]);
            }
        }
        assert(whole[n + at] == b[at]);
        assert(is_at(whole, n + (at + 1), '"') == is_at(b, at + 1, '"'));
        assert(is_at(whole, n + (at + 2), '"') == is_at(b, at + 2, '"'));
        assert(is_at(whole, n + (at + 3), '"') == is_at(b, at + 3, '"'));
        assert(is_at(whole, n + (at + 1), '\'') == is_at(b, at + 1, '\''));
        assert(is_at(whole, n + (at + 2), '\'') == is_at(b, at + 2, '\''));
        assert(is_at(whole, n + (at + 3), '\'') == is_at(b, at + 3, '\''));
        assert(is_at(whole, n + at, '"') == is_at(b, at, '"'));
        assert(is_at(whole, n + at, '\'') == is_at(b, at, '\''));
        lemma_line_end(b, at);
        lemma_line_end_behind(a, b, at);
        assert(whole.subrange(n + at, n + line_end(b, at)) =~= b.subrange(at, line_end(b, at)));
        let next = step(b, at, place);
        let shifted = step(whole, n + at, place);
        assert(shifted.at == n + next.at);
        assert(shifted.place == next.place);
        assert(shifted.comment == next.comment);
        assert(next.at > at);
        lemma_behind(a, b, next.at, next.place);
    }
}

/// Behind a text whose strings are closed, a text that starts with a line end brings its own
/// comments and nothing else.
proof fn lemma_appended(a: Seq<char>, b: Seq<char>, at: int, place: Place)
    requires
        0 <= at,
        is_at(b, 0, '\n'),
        final_place(a, at, place) == Place::Outside,
        at <= a.len() || place != Place::Outside,
    ensures
        comments_from(a + b, at, place) == comments_from(a, at, place) + comments(b),
        final_place(a + b, at, place) == final_place(b, 0, Place::Outside),
    decreases rest_len(a, at),
{
    if at == a.len() {
        lemma_behind(a, b, 0, Place::Outside);
        assert(comments_from(a, at, place) + comments(b) =~= comments(b));
    } else if at < a.len() {
        lemma_step_of_part(a, b, at, place);
        let next = step(a, at, place);
        lemma_line_end(a, at);
        lemma_appended(a, b, next.at, next.place);
        let rest = comments_from(a, next.at, next.place);
        match next.comment {
            Some(comment) => {
                assert(seq![comment] + (rest + comments(b)) =~= (seq![comment] + rest) + comments(b));
            },
            None => {},
        }
    }
}

/// A comment that starts a line goes to the end of it.
proof fn lemma_no_line_end(line: Seq<char>, at: int)
    requires
        0 <= at <= line.len(),
        forall|i: int| at <= i < line.len() ==> comment_character(#[trigger] line[i]),
    ensures
        line_end(line, at) == line.len(),
    decreases line.len() - at,
{
    if at < line.len() {
        assert(comment_character(line[at]));
        lemma_no_line_end(line, at + 1);
    }
}

/// A comment on a line of its own.
proof fn lemma_one_comment(comment: Seq<char>)
    requires
        comment_line(comment),
    ensures
        comments(seq!['\n'] + comment) == seq![comment],
        closed(seq!['\n'] + comment),
{
    let text = seq!['\n'] + comment;
    assert(text[0] == '\n');
    assert(text[1] == comment[0]);
    assert forall|i: int| 1 <= i < text.len() implies comment_character(#[trigger] text[i]) by {
        assert(text[i] == comment[i - 1]);
    }
    lemma_no_line_end(text, 1);
    assert(text.subrange(1, text.len() as int) =~= comment);
    let end = text.len() as int;
    assert(comments_from(text, end, Place::Outside) =~= Seq::<Seq<char>>::empty());
    assert(step(text, 1, Place::Outside).comment == Some(comment));
    assert(comments_from(text, 1, Place::Outside) =~= seq![comment]);
    assert(step(text, 0, Place::Outside).at == 1);
    assert(final_place(text, end, Place::Outside) == Place::Outside);
    assert(final_place(text, 1, Place::Outside) == Place::Outside);
}

/// Writing a comment behind a text adds the comment and nothing else.
pub proof fn lemma_one_more_comment(text: Seq<char>, comment: Seq<char>)
    requires
        closed(text),
        comment_line(comment),
    ensures
        comments(text + (seq!['\n'] + comment)) == comments(text).push(comment),
        closed(text + (seq!['\n'] + comment)),
{
    lemma_one_comment(comment);
    lemma_appended(text, seq!['\n'] + comment, 0, Place::Outside);
    assert(comments(text) + seq![comment] =~= comments(text).push(comment));
}

/// A line end behind a text changes no comment.
proof fn lemma_one_more_line(text: Seq<char>)
    requires
        closed(text),
    ensures
        comments(text.push('\n')) == comments(text),
{
    let end = seq!['\n'];
    assert(step(end, 0, Place::Outside).at == 1);
    assert(comments_from(end, 1, Place::Outside) =~= Seq::<Seq<char>>::empty());
    assert(comments(end) =~= Seq::<Seq<char>>::empty());
    lemma_appended(text, end, 0, Place::Outside);
    assert(text + end =~= text.push('\n'));
    assert(comments(text) + comments(end) =~= comments(text));
}

fn stands(text: &Vec<char>, at: usize, c: char) -> (r: bool)
    ensures
        r == is_at(text@, at as int, c),
{
    at < text.len() && text[at] == c
}

fn is_triple(text: &Vec<char>, at: usize, c: char) -> (r: bool)
    requires
        at < text@.len(),
    ensures
        r == triple(text@, at as int, c),
{
    text[at] == c && text.len() - at >= 3 && text[at + 1] == c && text[at + 2] == c
}

/// The characters up to the end of a line.
fn rest_of_line(text: &Vec<char>, at: usize) -> (r: Vec<char>)
    requires
        at < text@.len(),
    ensures
        r@ == text@.subrange(at as int, line_end(text@, at as int)),
{
    let mut line: Vec<char> = Vec::new();
    let mut end: usize = at;
    while end < text.len() && text[end] != '\n' && text[end] != '\r'
        invariant
            at <= end <= text@.len(),
            line_end(text@, at as int) == line_end(text@, end as int),
            line@ == text@.subrange(at as int, end as int),
        decreases text@.len() - end,
    {
        line.push(text[end]);
        assert(text@.subrange(at as int, end + 1) =~= text@.subrange(at as int, end as int).push(
            text@[end as int],
        ));
        end = end + 1;
    }
    line
}

/// Finds the comments of a text, and whether all its strings are closed.
fn find_comments(text: &Vec<char>) -> (r: (Vec<Vec<char>>, bool))
    ensures
        crate::text::views(r.0@) == comments(text@),
        r.1 == closed(text@),
{
    let mut list: Vec<Vec<char>> = Vec::new();
    let mut at: usize = 0;
    let mut place = Place::Outside;
    assert(crate::text::views(list@) + comments(text@) =~= comments(text@));
    while at < text.len()
        invariant
            crate::text::views(list@) + comments_from(text@, at as int, place) == comments(text@),
            final_place(text@, at as int, place) == final_place(text@, 0, Place::Outside),
        decreases text@.len() - at,
    {
        let ghost next = step(text@, at as int, place);
        let ghost before = list@;
        let ghost start = at as int;
        let ghost here = place;
        let c: char = text[at];
        proof {
            lemma_line_end(text@, at as int);
        }
        // What would lie past the end of the text is the end of it.
        let two: usize = if text.len() - at >= 2 {
            at + 2
        } else {
            text.len()
        };
        match place {
            Place::Outside => {
                if c == '#' {
                    let comment = rest_of_line(text, at);
                    at = at + comment.len();
                    let ghost found = comment@;
                    list.push(comment);
                    assert(crate::text::views(list@) =~= crate::text::views(before).push(found));
                } else if is_triple(text, at, '"') {
                    at = at + 3;
                    place = Place::LongBasic;
                } else if is_triple(text, at, '\'') {
                    at = at + 3;
                    place = Place::LongLiteral;
                } else {
                    at = at + 1;
                    if c == '"' {
                        place = Place::Basic;
                    } else if c == '\'' {
                        place = Place::Literal;
                    }
                }
            },
            Place::Basic => {
                if c == '\\' {
                    at = two;
                } else {
                    at = at + 1;
                    if c == '"' || c == '\n' {
                        place = Place::Outside;
                    }
                }
            },
            Place::Literal => {
                at = at + 1;
                if c == '\'' || c == '\n' {
                    place = Place::Outside;
                }
            },
            Place::LongBasic => {
                if c == '\\' {
                    at = two;
                } else if is_triple(text, at, '"') && !stands(text, at + 3, '"') {
                    at = at + 3;
                    place = Place::Outside;
                } else {
                    at = at + 1;
                }
            },
            Place::LongLiteral => {
                if is_triple(text, at, '\'') && !stands(text, at + 3, '\'') {
                    at = at + 3;
                    place = Place::Outside;
                } else {
                    at = at + 1;
                }
            },
        }
        proof {
            assert(next.place == place);
            assert(next.at == at || next.at > text@.len() && at == text@.len());
            assert(comments_from(text@, next.at, place) =~= comments_from(text@, at as int, place));
            assert(final_place(text@, next.at, place) == final_place(text@, at as int, place));
            assert(final_place(text@, start, here) == final_place(text@, next.at, next.place));
            let rest = comments_from(text@, at as int, place);
            assert(comments_from(text@, start, here) == match next.comment {
                Some(comment) => seq![comment] + rest,
                None => rest,
            });
            match next.comment {
                Some(comment) => {
                    assert(crate::text::views(before).push(comment) + rest =~= crate::text::views(
                        before,
                    ) + (seq![comment] + rest));
                },
                None => {},
            }
        }
    }
    assert(comments_from(text@, at as int, place) =~= Seq::<Seq<char>>::empty());
    assert(crate::text::views(list@) + Seq::<Seq<char>>::empty() =~= crate::text::views(list@));
    (list, place == Place::Outside)
}

fn is_writable(comment: &Vec<char>) -> (r: bool)
    ensures
        r == comment_line(comment@),
{
    if comment.len() == 0 || comment[0] != '#' {
        return false;
    }
    for i in 0..comment.len()
        invariant
            comment@.len() > 0,
            comment@[0] == '#',
            forall|j: int| 0 <= j < i ==> comment_character(#[trigger] comment@[j]),
    {
        let c: char = comment[i];
        if !(c == '\t' || (' ' <= c && c != '\u{7f}')) {
            assert(!comment_character(comment@[i as int]));
            return false;
        }
    }
    true
}

fn is_among(list: &Vec<Vec<char>>, comment: &Vec<char>) -> (r: bool)
    ensures
        r == crate::text::views(list@).contains(comment@),
{
    for i in 0..list.len()
        invariant
            forall|j: int| 0 <= j < i ==> (#[trigger] list@[j])@ != comment@,
    {
        if same_characters(&list[i], comment) {
            assert(crate::text::views(list@)[i as int] == comment@);
            return true;
        }
    }
    proof {
        let all = crate::text::views(list@);
        if all.contains(comment@) {
            let k = choose|k: int| 0 <= k < all.len() && all[k] == comment@;
            assert(list@[k]@ == comment@);
        }
    }
    false
}

/// Appends a comment as a line of its own.
fn add_line(text: &mut Vec<char>, comment: &Vec<char>)
    requires
        comment_line(comment@),
        old(text)@.len() == 0 || only_comments(old(text)@),
    ensures
        final(text)@ == old(text)@ + (seq!['\n'] + comment@),
        only_comments(final(text)@),
{
    text.push('\n');
    for k in 0..comment.len()
        invariant
            text@ == old(text)@ + (seq!['\n'] + comment@.take(k as int)),
    {
        text.push(comment[k]);
        assert(text@ =~= old(text)@ + (seq!['\n'] + comment@.take(k + 1)));
    }
    proof {
        assert(comment@.take(comment@.len() as int) =~= comment@);
        let n = old(text)@.len() as int;
        assert forall|i: int| 0 <= i < text@.len() implies (#[trigger] text@[i]) == '\n'
            || comment_character(text@[i]) by {
            if i < n {
                assert(text@[i] == old(text)@[i]);
            } else if i > n {
                assert(text@[i] == comment@[i - n - 1]);
            }
        }
        assert forall|i: int| 0 < i < text@.len() && text@[i - 1] == '\n' implies (
        #[trigger] text@[i]) == '\n' || text@[i] == '#' by {
            if i < n {
                assert(text@[i] == old(text)@[i] && text@[i - 1] == old(text)@[i - 1]);
            } else if i == n + 1 {
                assert(text@[i] == comment@[0]);
            } else if i > n + 1 {
                assert(text@[i - 1] == comment@[i - n - 2]);
                assert(comment_character(comment@[i - n - 2]));
            }
        }
    }
}

/// What is to be written behind a changed text so that it keeps the comments of the text before;
/// nothing when it has them all. Fails when a comment cannot stand on a line of its own, or when
/// the changed text ends inside a string.
pub fn lost_comments(before: &str, after: &str) -> (r: Result<Option<Vec<char>>, Error>)
    ensures
        r is Ok <==> comments_writable(before@) && closed(after@),
        match r {
            Ok(Some(text)) => {
                &&& !keeps_comments(before@, after@)
                &&& only_comments(text@)
                &&& keeps_comments(before@, after@ + text@)
            },
            Ok(None) => keeps_comments(before@, after@),
            Err(e) => e == Error::ConfigInvalid,
        },
{
    let (wanted, _) = find_comments(&characters(before));
    let (present, complete) = find_comments(&characters(after));
    if !complete {
        return Err(Error::ConfigInvalid);
    }
    for i in 0..wanted.len()
        invariant
            crate::text::views(wanted@) == comments(before@),
            forall|j: int| 0 <= j < i ==> comment_line(#[trigger] comments(before@)[j]),
    {
        assert(comments(before@)[i as int] == wanted@[i as int]@);
        if !is_writable(&wanted[i]) {
            return Err(Error::ConfigInvalid);
        }
    }
    assert(comments(before@).len() == wanted@.len());
    let mut text: Vec<char> = Vec::new();
    assert(after@ + text@ =~= after@);
    for i in 0..wanted.len()
        invariant
            crate::text::views(wanted@) == comments(before@),
            crate::text::views(present@) == comments(after@),
            comments_writable(before@),
            closed(after@ + text@),
            text@.len() == 0 || only_comments(text@),
            text@.len() > 0 ==> !keeps_comments(before@, after@),
            forall|comment: Seq<char>| #[trigger]
                comments(after@).contains(comment) ==> comments(after@ + text@).contains(comment),
            forall|j: int|
                0 <= j < i ==> comments(after@ + text@).contains(#[trigger] comments(before@)[j]),
    {
        assert(comments(before@)[i as int] == wanted@[i as int]@);
        if !is_among(&present, &wanted[i]) {
            let ghost earlier = text@;
            let ghost comment = wanted@[i as int]@;
            add_line(&mut text, &wanted[i]);
            proof {
                assert(comments(before@).contains(comment));
                let old_list = comments(after@ + earlier);
                lemma_one_more_comment(after@ + earlier, comment);
                assert(after@ + text@ =~= (after@ + earlier) + (seq!['\n'] + comment));
                let new_list = comments(after@ + text@);
                assert forall|c: Seq<char>| #[trigger] old_list.contains(c) implies new_list.contains(
                    c,
                ) by {
                    let k = choose|k: int| 0 <= k < old_list.len() && old_list[k] == c;
                    assert(new_list[k] == c);
                }
                assert(new_list[old_list.len() as int] == comment);
            }
        }
    }
    proof {
        assert forall|comment: Seq<char>| #[trigger] comments(before@).contains(
            comment,
        ) implies comments(after@ + text@).contains(comment) by {
            let k = choose|k: int| 0 <= k < comments(before@).len() && comments(before@)[k] == comment;
            assert(comments(after@ + text@).contains(comments(before@)[k]));
        }
    }
    if text.len() == 0 {
        return Ok(None);
    }
    let ghost earlier = text@;
    text.push('\n');
    proof {
        lemma_one_more_line(after@ + earlier);
        assert(after@ + text@ =~= (after@ + earlier).push('\n'));
        assert forall|i: int| 0 <= i < text@.len() implies (#[trigger] text@[i]) == '\n'
            || comment_character(text@[i]) by {
            if i < earlier.len() {
                assert(text@[i] == earlier[i]);
            }
        }
        assert forall|i: int| 0 < i < text@.len() && text@[i - 1] == '\n' implies (
        #[trigger] text@[i]) == '\n' || text@[i] == '#' by {
            if i < earlier.len() {
                assert(text@[i] == earlier[i] && text@[i - 1] == earlier[i - 1]);
            }
        }
        assert(text@[0] == earlier[0]);
    }
    Ok(Some(text))
}

} // verus!
