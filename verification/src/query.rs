//! The `page` parameter of a request's query.

use vstd::prelude::*;

verus! {

/// The number of bytes of `text` before the first `sep`, or in all where
/// there is none.
pub open spec fn until(text: Seq<u8>, sep: u8) -> int
    decreases text.len(),
{
    if text.len() == 0 || text[0] == sep {
        0
    } else {
        1 + until(text.drop_first(), sep)
    }
}

/// The pieces of `text` between the separators `sep`, in order. A text
/// without a separator is one piece.
pub open spec fn split(text: Seq<u8>, sep: u8) -> Seq<Seq<u8>>
    decreases text.len(),
{
    let at = until(text, sep);
    if 0 <= at < text.len() {
        seq![text.subrange(0, at)] + split(text.subrange(at + 1, text.len() as int), sep)
    } else {
        seq![text]
    }
}

/// Whether `text` is one decimal digit or more.
pub open spec fn is_digits(text: Seq<u8>) -> bool {
    &&& text.len() > 0
    &&& forall|i: int| 0 <= i < text.len() ==> 48 <= #[trigger] text[i] <= 57
}

/// The number that the decimal digits of `text` write.
pub open spec fn digits_value(text: Seq<u8>) -> int
    decreases text.len(),
{
    if text.len() == 0 {
        0
    } else {
        digits_value(text.drop_last()) * 10 + (text.last() - 48)
    }
}

/// The `i32` that `text` writes in decimal: digits, after at most one sign,
/// that stay within the range of `i32`.
pub open spec fn number(text: Seq<u8>) -> Option<i32> {
    let signed = text.len() > 0 && (text[0] == 43 || text[0] == 45);
    let digits = if signed {
        text.drop_first()
    } else {
        text
    };
    let value = if signed && text[0] == 45 {
        -digits_value(digits)
    } else {
        digits_value(digits)
    };
    if is_digits(digits) && i32::MIN <= value <= i32::MAX {
        Some(value as i32)
    } else {
        None
    }
}

/// The name of the parameter: `page`.
pub open spec fn page_key() -> Seq<u8> {
    seq![112u8, 97u8, 103u8, 101u8]
}

/// The page that one pair of the query gives: the pair is `page`, one `=`,
/// and a number.
pub open spec fn pair_value(pair: Seq<u8>) -> Option<i32> {
    let fields = split(pair, 61);
    if fields.len() == 2 && fields[0] == page_key() {
        number(fields[1])
    } else {
        None
    }
}

/// The page of the first of `pairs` that gives one.
pub open spec fn first_value(pairs: Seq<Seq<u8>>) -> Option<i32>
    decreases pairs.len(),
{
    if pairs.len() == 0 {
        None
    } else if pair_value(pairs[0]) is Some {
        pair_value(pairs[0])
    } else {
        first_value(pairs.drop_first())
    }
}

/// The page that a query asks for: its pairs stand between `&`, and the
/// first pair that gives a page decides.
pub open spec fn page_of(query: Seq<u8>) -> Option<i32> {
    first_value(split(query, 38))
}

/// The value of decimal digits is not negative, and not less than the value
/// of any of their beginnings.
proof fn lemma_digits_grow(text: Seq<u8>, count: int)
    requires
        forall|i: int| 0 <= i < text.len() ==> 48 <= #[trigger] text[i] <= 57,
        0 <= count <= text.len(),
    ensures
        0 <= digits_value(text.subrange(0, count)) <= digits_value(text),
    decreases text.len() - count,
{
    if count == text.len() {
        assert(text.subrange(0, count) =~= text);
        lemma_digits_grow_from_zero(text);
    } else {
        lemma_digits_grow(text, count + 1);
        let longer = text.subrange(0, count + 1);
        assert(longer.drop_last() =~= text.subrange(0, count));
        lemma_digits_grow_from_zero(text.subrange(0, count));
    }
}

/// The value of decimal digits is not negative.
proof fn lemma_digits_grow_from_zero(text: Seq<u8>)
    requires
        forall|i: int| 0 <= i < text.len() ==> 48 <= #[trigger] text[i] <= 57,
    ensures
        0 <= digits_value(text),
    decreases text.len(),
{
    if text.len() > 0 {
        lemma_digits_grow_from_zero(text.drop_last());
    }
}

/// Reads the number that `text` holds from `from` up to `to`.
fn parse_number(text: &[u8], from: usize, to: usize) -> (parsed: Option<i32>)
    requires
        from <= to <= text.len(),
    ensures
        parsed == number(text@.subrange(from as int, to as int)),
{
    let ghost whole = text@.subrange(from as int, to as int);
    if from == to {
        return None;
    }
    let first = text[from];
    assert(whole[0] == first);
    let negative = first == 45;
    let start = if first == 43 || first == 45 {
        from + 1
    } else {
        from
    };
    let ghost digits = text@.subrange(start as int, to as int);
    proof {
        if start > from {
            assert(digits =~= whole.drop_first());
        } else {
            assert(digits =~= whole);
        }
    }
    if start == to {
        return None;
    }
    let mut value: i64 = 0;
    let mut i = start;
    proof {
        assert(text@.subrange(start as int, i as int) =~= Seq::<u8>::empty());
    }
    while i < to
        invariant
            start <= i <= to <= text.len(),
            from < to,
            whole == text@.subrange(from as int, to as int),
            digits == text@.subrange(start as int, to as int),
            negative == (whole[0] == 45),
            start == from + 1 || start == from,
            start == from + 1 <==> whole[0] == 43 || whole[0] == 45,
            digits == if start > from {
                whole.drop_first()
            } else {
                whole
            },
            forall|j: int| start <= j < i ==> 48 <= #[trigger] text@[j] <= 57,
            value == digits_value(text@.subrange(start as int, i as int)),
            0 <= value <= 2147483648,
        decreases to - i,
    {
        let byte = text[i];
        if byte < 48 || byte > 57 {
            proof {
                assert(digits[i - start] == byte);
            }
            return None;
        }
        value = value * 10 + (byte - 48) as i64;
        proof {
            let longer = text@.subrange(start as int, i + 1);
            assert(longer.drop_last() =~= text@.subrange(start as int, i as int));
            assert(longer.last() == byte);
            assert(value == digits_value(longer));
        }
        if value > 2147483648 {
            proof {
                if is_digits(digits) {
                    assert forall|j: int| 0 <= j < digits.len() implies 48 <= #[trigger] digits[j]
                        <= 57 by {}
                    lemma_digits_grow(digits, i + 1 - start);
                    assert(digits.subrange(0, i + 1 - start) =~= text@.subrange(
                        start as int,
                        i + 1,
                    ));
                }
            }
            return None;
        }
        i += 1;
    }
    proof {
        assert(text@.subrange(start as int, i as int) =~= digits);
        assert forall|j: int| 0 <= j < digits.len() implies 48 <= #[trigger] digits[j] <= 57 by {
            assert(digits[j] == text@[start + j]);
        }
    }
    if negative {
        Some((-value) as i32)
    } else if value == 2147483648 {
        None
    } else {
        Some(value as i32)
    }
}

/// `until` stops at the first separator and nowhere else.
proof fn lemma_until(text: Seq<u8>, sep: u8)
    ensures
        0 <= until(text, sep) <= text.len(),
        forall|j: int| 0 <= j < until(text, sep) ==> text[j] != sep,
        until(text, sep) < text.len() ==> text[until(text, sep)] == sep,
    decreases text.len(),
{
    if text.len() == 0 || text[0] == sep {
    } else {
        let rest = text.drop_first();
        lemma_until(rest, sep);
        assert forall|j: int| 0 <= j < until(text, sep) implies text[j] != sep by {
            if j > 0 {
                assert(text[j] == rest[j - 1]);
            }
        }
        if until(text, sep) < text.len() {
            assert(text[until(text, sep)] == rest[until(rest, sep)]);
        }
    }
}

/// The place of the first `sep` in `text` from `from` up to `to`, or `to`
/// where there is none.
fn find(text: &[u8], from: usize, to: usize, sep: u8) -> (at: usize)
    requires
        from <= to <= text.len(),
    ensures
        from <= at <= to,
        at - from == until(text@.subrange(from as int, to as int), sep),
{
    let ghost part = text@.subrange(from as int, to as int);
    let mut at = from;
    while at < to && text[at] != sep
        invariant
            from <= at <= to <= text.len(),
            part == text@.subrange(from as int, to as int),
            forall|j: int| from <= j < at ==> text@[j] != sep,
        decreases to - at,
    {
        at += 1;
    }
    proof {
        lemma_until(part, sep);
        let stop = until(part, sep);
        if stop < at - from {
            assert(part[stop] == text@[from + stop]);
        }
        if stop > at - from {
            assert(part[at - from] == text@[at as int]);
        }
    }
    at
}

/// A text has one piece at least.
proof fn lemma_split_some(text: Seq<u8>, sep: u8)
    ensures
        split(text, sep).len() >= 1,
{
}

/// Reads the page that the pair in `text` from `from` up to `to` gives.
fn parse_pair(text: &[u8], from: usize, to: usize) -> (page: Option<i32>)
    requires
        from <= to <= text.len(),
    ensures
        page == pair_value(text@.subrange(from as int, to as int)),
{
    let ghost pair = text@.subrange(from as int, to as int);
    let eq = find(text, from, to, 61);
    if eq == to {
        return None;
    }
    let ghost value = pair.subrange(eq - from + 1, pair.len() as int);
    let ghost key = pair.subrange(0, eq - from);
    proof {
        assert(value =~= text@.subrange(eq + 1, to as int));
        assert(split(pair, 61) == seq![key] + split(value, 61));
        lemma_split_some(value, 61);
    }
    let second = find(text, eq + 1, to, 61);
    if second != to {
        proof {
            let at = until(value, 61);
            lemma_split_some(value.subrange(at + 1, value.len() as int), 61);
        }
        return None;
    }
    proof {
        assert(split(value, 61) == seq![value]);
        assert(split(pair, 61) =~= seq![key, value]);
        assert(split(pair, 61)[0] == key);
        assert(split(pair, 61)[1] == value);
    }
    if eq - from != 4 || text[from] != 112 || text[from + 1] != 97 || text[from + 2] != 103
        || text[from + 3] != 101 {
        proof {
            if key.len() == 4 {
                assert(key[0] == text@[from as int]);
                assert(key[1] == text@[from + 1]);
                assert(key[2] == text@[from + 2]);
                assert(key[3] == text@[from + 3]);
                assert(page_key()[0] == 112 && page_key()[1] == 97 && page_key()[2] == 103
                    && page_key()[3] == 101);
            }
            assert(key != page_key());
        }
        return None;
    }
    proof {
        assert(key =~= page_key());
    }
    parse_number(text, eq + 1, to)
}

/// Reads the page that a request asks for from its query: the number of the
/// first pair `page=<number>` among the pairs between `&`. A request without
/// a query, or without such a pair, asks for none.
pub fn page_param(query: Option<&[u8]>) -> (page: Option<i32>)
    ensures
        page == match query {
            Some(text) => page_of(text@),
            None => None,
        },
{
    let text = match query {
        Some(text) => text,
        None => {
            return None;
        },
    };
    let mut start: usize = 0;
    proof {
        assert(text@.subrange(0, text@.len() as int) =~= text@);
    }
    loop
        invariant
            query == Some(text),
            start <= text.len(),
            page_of(text@) == first_value(
                split(text@.subrange(start as int, text@.len() as int), 38),
            ),
        decreases text.len() - start,
    {
        let ghost rest = text@.subrange(start as int, text@.len() as int);
        let end = find(text, start, text.len(), 38);
        let found = parse_pair(text, start, end);
        proof {
            let pair = rest.subrange(0, end - start);
            assert(pair =~= text@.subrange(start as int, end as int));
            if end < text.len() {
                let after = rest.subrange(end - start + 1, rest.len() as int);
                assert(after =~= text@.subrange(end + 1, text@.len() as int));
                let pairs = split(rest, 38);
                assert(pairs == seq![pair] + split(after, 38));
                assert(pairs[0] == pair);
                assert(pairs.drop_first() =~= split(after, 38));
            } else {
                let pairs = split(rest, 38);
                assert(pair =~= rest);
                assert(pairs == seq![rest]);
                assert(pairs[0] == pair);
                assert(pairs.drop_first() =~= Seq::<Seq<u8>>::empty());
                assert(first_value(pairs.drop_first()) is None);
            }
        }
        if found.is_some() {
            return found;
        }
        if end == text.len() {
            return None;
        }
        start = end + 1;
    }
}

} // verus!
