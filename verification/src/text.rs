//! Texts: joining and copying lists of them, trimming and splitting one, and
//! writing numbers in decimal digits.

use vstd::prelude::*;
use vstd::std_specs::iter::IteratorSpec;
use vstd::string::{StrSliceExecFns, StringExecFns};

verus! {

/// The texts of `parts` in order, with `separator` between each two.
pub open spec fn joined(parts: Seq<Seq<char>>, separator: Seq<char>) -> Seq<char>
    decreases parts.len(),
{
    if parts.len() == 0 {
        Seq::empty()
    } else if parts.len() == 1 {
        parts[0]
    } else {
        joined(parts.drop_last(), separator) + separator + parts.last()
    }
}

/// Joins `parts` into one text, with `separator` between each two.
pub fn join(parts: &Vec<String>, separator: &str) -> (text: String)
    ensures
        text@ == joined(parts.deep_view(), separator@),
{
    let ghost all = parts.deep_view();
    let mut text = String::new();
    let mut n: usize = 0;
    while n < parts.len()
        invariant
            n <= parts.len(),
            all == parts.deep_view(),
            text@ == joined(all.take(n as int), separator@),
        decreases parts.len() - n,
    {
        proof {
            let next = all.take(n as int + 1);
            assert(next.drop_last() =~= all.take(n as int));
            assert(next.last() == parts@[n as int]@);
            if n == 0 {
                assert(text@ + parts@[n as int]@ =~= next[0]);
            }
        }
        if n > 0 {
            text.append(separator);
        }
        text.append(parts[n].as_str());
        n = n + 1;
    }
    assert(all.take(parts.len() as int) =~= all);
    text
}

/// A copy of a list of ids.
pub fn copy_ids(ids: &Vec<String>) -> (copy: Vec<String>)
    ensures
        copy.deep_view() == ids.deep_view(),
{
    let mut copy: Vec<String> = Vec::new();
    let mut n: usize = 0;
    while n < ids.len()
        invariant
            n <= ids.len(),
            copy.len() == n,
            forall|i: int| 0 <= i < n ==> #[trigger] copy.deep_view()[i] == ids.deep_view()[i],
        decreases ids.len() - n,
    {
        let ghost before = copy.deep_view();
        copy.push(ids[n].clone());
        assert forall|i: int| 0 <= i < n + 1 implies #[trigger] copy.deep_view()[i]
            == ids.deep_view()[i] by {
            if i < n {
                assert(copy.deep_view()[i] == before[i]);
            }
        }
        n = n + 1;
    }
    assert(copy.deep_view() =~= ids.deep_view());
    copy
}

/// The character is white space.
pub open spec fn is_space(c: char) -> bool {
    let code = c as u32;
    ||| 0x09 <= code <= 0x0d
    ||| code == 0x20
    ||| code == 0x85
    ||| code == 0xa0
    ||| code == 0x1680
    ||| 0x2000 <= code <= 0x200a
    ||| code == 0x2028
    ||| code == 0x2029
    ||| code == 0x202f
    ||| code == 0x205f
    ||| code == 0x3000
}

/// The number of white space characters with which `text` begins.
pub open spec fn leading_spaces(text: Seq<char>) -> nat
    decreases text.len(),
{
    if text.len() > 0 && is_space(text[0]) {
        1 + leading_spaces(text.drop_first())
    } else {
        0
    }
}

/// The number of white space characters with which `text` ends.
pub open spec fn trailing_spaces(text: Seq<char>) -> nat
    decreases text.len(),
{
    if text.len() > 0 && is_space(text.last()) {
        1 + trailing_spaces(text.drop_last())
    } else {
        0
    }
}

/// `text` without the white space at its two ends.
pub open spec fn trimmed(text: Seq<char>) -> Seq<char> {
    if leading_spaces(text) == text.len() {
        Seq::empty()
    } else {
        text.subrange(leading_spaces(text) as int, text.len() - trailing_spaces(text))
    }
}

/// The pieces of `text` between its commas. A text without a comma is one
/// piece, and so is the empty text.
pub open spec fn fields(text: Seq<char>) -> Seq<Seq<char>>
    decreases text.len(),
{
    if text.len() == 0 {
        seq![Seq::empty()]
    } else {
        let before = fields(text.drop_last());
        if text.last() == ',' {
            before.push(Seq::empty())
        } else {
            before.drop_last().push(before.last().push(text.last()))
        }
    }
}

/// Where the first `n` characters are white space and the next is not, the
/// text begins with `n` white space characters.
proof fn lemma_leading_spaces(text: Seq<char>, n: int)
    requires
        0 <= n <= text.len(),
        forall|i: int| 0 <= i < n ==> is_space(#[trigger] text[i]),
        n < text.len() ==> !is_space(text[n]),
    ensures
        leading_spaces(text) == n,
    decreases n,
{
    if n > 0 {
        let rest = text.drop_first();
        assert forall|i: int| 0 <= i < n - 1 implies is_space(#[trigger] rest[i]) by {
            assert(rest[i] == text[i + 1]);
        }
        lemma_leading_spaces(rest, n - 1);
    }
}

/// Where the characters from `end` on are white space and the one before is
/// not, the text ends with as many white space characters.
proof fn lemma_trailing_spaces(text: Seq<char>, end: int)
    requires
        0 <= end <= text.len(),
        forall|i: int| end <= i < text.len() ==> is_space(#[trigger] text[i]),
        end > 0 ==> !is_space(text[end - 1]),
    ensures
        trailing_spaces(text) == text.len() - end,
    decreases text.len() - end,
{
    if end < text.len() {
        let rest = text.drop_last();
        assert forall|i: int| end <= i < rest.len() implies is_space(#[trigger] rest[i]) by {
            assert(rest[i] == text[i]);
        }
        lemma_trailing_spaces(rest, end);
    }
}

/// Tells whether the character is white space.
fn is_space_char(c: char) -> (space: bool)
    ensures
        space == is_space(c),
{
    let code = c as u32;
    (0x09 <= code && code <= 0x0d) || code == 0x20 || code == 0x85 || code == 0xa0 || code
        == 0x1680 || (0x2000 <= code && code <= 0x200a) || code == 0x2028 || code == 0x2029
        || code == 0x202f || code == 0x205f || code == 0x3000
}

/// `text` without the white space at its two ends.
pub fn trim(text: &str) -> (inner: &str)
    ensures
        inner@ == trimmed(text@),
{
    let n = text.unicode_len();
    let mut rest = text.chars();
    let mut i: usize = 0;
    let mut first: usize = 0;
    let mut end: usize = 0;
    while i < n
        invariant
            n == text@.len(),
            i <= n,
            rest.obeys_prophetic_iter_laws(),
            rest.remaining() == text@.skip(i as int),
            end <= i,
            end == 0 ==> first == i && forall|j: int| 0 <= j < i ==> is_space(#[trigger] text@[j]),
            end > 0 ==> first < end && !is_space(text@[first as int]) && !is_space(
                text@[end - 1],
            ) && (forall|j: int| 0 <= j < first ==> is_space(#[trigger] text@[j])),
            forall|j: int| end <= j < i ==> is_space(#[trigger] text@[j]),
        decreases n - i,
    {
        let next = rest.next();
        assert(text@.skip(i as int)[0] == text@[i as int]);
        assert(text@.skip(i as int).drop_first() =~= text@.skip(i as int + 1));
        match next {
            Some(c) => {
                if !is_space_char(c) {
                    if end == 0 {
                        first = i;
                    }
                    end = i + 1;
                } else if end == 0 {
                    first = i + 1;
                }
            },
            None => {},
        }
        i = i + 1;
    }
    proof {
        if end == 0 {
            lemma_leading_spaces(text@, n as int);
        } else {
            lemma_leading_spaces(text@, first as int);
            lemma_trailing_spaces(text@, end as int);
        }
    }
    if end == 0 {
        let inner = text.substring_char(0, 0);
        assert(inner@ =~= Seq::empty());
        inner
    } else {
        text.substring_char(first, end)
    }
}

/// The pieces of `text` between its commas, each without the white space at
/// its two ends.
pub fn split_and_trim(text: &str) -> (pieces: Vec<String>)
    ensures
        pieces.deep_view() == fields(text@).map_values(|field: Seq<char>| trimmed(field)),
{
    let n = text.unicode_len();
    let mut rest = text.chars();
    let mut pieces: Vec<String> = Vec::new();
    let mut i: usize = 0;
    let mut start: usize = 0;
    assert(text@.take(0) =~= Seq::empty());
    assert(text@.subrange(0, 0) =~= Seq::empty());
    assert(fields(text@.take(0)) =~= seq![text@.subrange(0, 0)]);
    while i < n
        invariant
            n == text@.len(),
            i <= n,
            start <= i,
            rest.obeys_prophetic_iter_laws(),
            rest.remaining() == text@.skip(i as int),
            fields(text@.take(i as int)).len() == pieces.len() + 1,
            fields(text@.take(i as int)).last() == text@.subrange(start as int, i as int),
            forall|j: int|
                0 <= j < pieces.len() ==> #[trigger] pieces.deep_view()[j] == trimmed(
                    fields(text@.take(i as int))[j],
                ),
        decreases n - i,
    {
        let ghost seen = text@.take(i as int);
        let ghost more = text@.take(i as int + 1);
        let ghost done = pieces.deep_view();
        let next = rest.next();
        proof {
            assert(text@.skip(i as int)[0] == text@[i as int]);
            assert(text@.skip(i as int).drop_first() =~= text@.skip(i as int + 1));
            assert(more.drop_last() =~= seen);
            assert(more.last() == text@[i as int]);
        }
        match next {
            Some(c) => {
                if c == ',' {
                    let piece = trim(text.substring_char(start, i));
                    pieces.push(piece.to_owned());
                    start = i + 1;
                    proof {
                        assert(text@.subrange(i as int + 1, i as int + 1) =~= Seq::empty());
                        assert forall|j: int| 0 <= j < pieces.len() implies #[trigger] pieces.deep_view()[j]
                            == trimmed(fields(more)[j]) by {
                            if j < done.len() {
                                assert(pieces.deep_view()[j] == done[j]);
                            }
                        }
                    }
                } else {
                    proof {
                        assert(text@.subrange(start as int, i as int).push(c) =~= text@.subrange(
                            start as int,
                            i as int + 1,
                        ));
                        assert forall|j: int| 0 <= j < pieces.len() implies #[trigger] pieces.deep_view()[j]
                            == trimmed(fields(more)[j]) by {
                            assert(fields(more)[j] == fields(seen)[j]);
                        }
                    }
                }
            },
            None => {},
        }
        i = i + 1;
    }
    let piece = trim(text.substring_char(start, n));
    let ghost done = pieces.deep_view();
    pieces.push(piece.to_owned());
    proof {
        assert(text@.take(n as int) =~= text@);
        let wanted = fields(text@).map_values(|field: Seq<char>| trimmed(field));
        assert forall|j: int| 0 <= j < wanted.len() implies pieces.deep_view()[j] == wanted[j] by {
            if j < done.len() {
                assert(pieces.deep_view()[j] == done[j]);
            }
        }
        assert(pieces.deep_view() =~= wanted);
    }
    pieces
}

/// The character that stands for the digit `d`.
pub open spec fn digit(d: nat) -> char
    recommends
        d < 10,
{
    (0x30 + d) as char
}

/// The number `n` in decimal digits.
pub open spec fn decimal(n: nat) -> Seq<char>
    decreases n,
{
    if n < 10 {
        seq![digit(n)]
    } else {
        decimal(n / 10).push(digit(n % 10))
    }
}

/// `count` times the digit zero.
pub open spec fn zeros(count: nat) -> Seq<char> {
    Seq::new(count, |i: int| '0')
}

/// The text of one digit.
fn digit_text(d: usize) -> (text: &'static str)
    requires
        d < 10,
    ensures
        text@ == seq![digit(d as nat)],
{
    proof {
        reveal_strlit("0");
        reveal_strlit("1");
        reveal_strlit("2");
        reveal_strlit("3");
        reveal_strlit("4");
        reveal_strlit("5");
        reveal_strlit("6");
        reveal_strlit("7");
        reveal_strlit("8");
        reveal_strlit("9");
    }
    let text = if d == 0 {
        "0"
    } else if d == 1 {
        "1"
    } else if d == 2 {
        "2"
    } else if d == 3 {
        "3"
    } else if d == 4 {
        "4"
    } else if d == 5 {
        "5"
    } else if d == 6 {
        "6"
    } else if d == 7 {
        "7"
    } else if d == 8 {
        "8"
    } else {
        "9"
    };
    assert(text@ =~= seq![digit(d as nat)]);
    text
}

/// Writes `n` in decimal digits at the end of `out`.
pub fn push_decimal(out: &mut String, n: usize)
    ensures
        final(out)@ == old(out)@ + decimal(n as nat),
    decreases n,
{
    if n >= 10 {
        push_decimal(out, n / 10);
    }
    out.append(digit_text(n % 10));
    assert(out@ =~= old(out)@ + decimal(n as nat));
}

} // verus!
