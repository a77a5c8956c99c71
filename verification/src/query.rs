//! The two query-string parameters that the API reads: `category=<id>`
//! on the product list and `approved_only=true` on the review list. A
//! query is split at every `&` into pairs, as `str::split('&')` does, and
//! a number is read as `u64::from_str` reads it.

use vstd::prelude::*;

use crate::text::chars_of;
use crate::seq_util::{first_match, lemma_first_match, lemma_first_match_at, lemma_first_match_none};

verus! {

/// The character is `&`.
pub open spec fn is_amp() -> spec_fn(char) -> bool {
    |c: char| c == '&'
}

/// The pairs of a query: the pieces between `&`s, empty pieces included.
pub open spec fn split_pairs(s: Seq<char>) -> Seq<Seq<char>>
    decreases s.len(),
{
    let i = first_match(s, is_amp());
    if i < 0 {
        seq![s]
    } else {
        proof {
            lemma_first_match(s, is_amp());
        }
        seq![s.take(i)] + split_pairs(s.skip(i + 1))
    }
}

/// The character is an ASCII decimal digit.
pub open spec fn is_digit(c: char) -> bool {
    '0' <= c && c <= '9'
}

/// The number that a string of decimal digits denotes.
pub open spec fn digits_value(d: Seq<char>) -> nat
    decreases d.len(),
{
    if d.len() == 0 {
        0
    } else {
        digits_value(d.drop_last()) * 10 + (d.last() as nat - '0' as nat) as nat
    }
}

/// Every character of `d` is an ASCII decimal digit.
pub open spec fn all_digits(d: Seq<char>) -> bool {
    forall|i: int| 0 <= i < d.len() ==> is_digit(#[trigger] d[i])
}

/// The digits of a number text: what follows an optional leading `+`.
pub open spec fn unsigned_digits(s: Seq<char>) -> Seq<char> {
    if s.len() > 0 && s[0] == '+' {
        s.drop_first()
    } else {
        s
    }
}

/// What `u64::from_str` makes of `s`: an optional `+`, then one or more
/// ASCII digits whose value fits in a `u64`; anything else is refused.
pub open spec fn parse_u64(s: Seq<char>) -> Option<u64> {
    let d = unsigned_digits(s);
    if d.len() > 0 && all_digits(d) && digits_value(d) <= u64::MAX {
        Some(digits_value(d) as u64)
    } else {
        None
    }
}

/// The key `category=`.
pub open spec fn category_key() -> Seq<char> {
    seq!['c', 'a', 't', 'e', 'g', 'o', 'r', 'y', '=']
}

/// The pair `approved_only=true`.
pub open spec fn approved_only_pair() -> Seq<char> {
    seq!['a', 'p', 'p', 'r', 'o', 'v', 'e', 'd', '_', 'o', 'n', 'l', 'y', '=', 't', 'r', 'u', 'e']
}

/// The category id a pair names: `category=` followed by a number.
pub open spec fn pair_category(pair: Seq<char>) -> Option<u64> {
    if pair.len() >= category_key().len() && pair.take(category_key().len() as int) == category_key() {
        parse_u64(pair.skip(category_key().len() as int))
    } else {
        None
    }
}

/// The category id named by the first pair that names one.
pub open spec fn first_category(pairs: Seq<Seq<char>>) -> Option<u64>
    decreases pairs.len(),
{
    if pairs.len() == 0 {
        None
    } else {
        match pair_category(pairs[0]) {
            Some(v) => Some(v),
            None => first_category(pairs.drop_first()),
        }
    }
}

/// The position of the first `&` at or after `from`, or the length.
fn next_amp(chars: &Vec<char>, from: usize) -> (r: usize)
    requires
        from <= chars@.len(),
    ensures
        from <= r <= chars@.len(),
        first_match(chars@.skip(from as int), is_amp()) == if r < chars@.len() {
            r - from
        } else {
            -1
        },
{
    let ghost rest = chars@.skip(from as int);
    let mut i = from;
    while i < chars.len()
        invariant
            from <= i <= chars@.len(),
            rest == chars@.skip(from as int),
            forall|j: int| 0 <= j < i - from ==> !is_amp()(#[trigger] rest[j]),
        decreases chars@.len() - i,
    {
        if chars[i] == '&' {
            proof {
                lemma_first_match_at(rest, is_amp(), i - from);
            }
            return i;
        }
        i = i + 1;
    }
    proof {
        lemma_first_match_none(rest, is_amp());
    }
    i
}

/// How the pairs of the query from `from` on split at the `&` at `end`
/// (or end at the end of the query).
proof fn lemma_split_step(s: Seq<char>, from: int, end: int)
    requires
        0 <= from <= end <= s.len(),
        first_match(s.skip(from), is_amp()) == if end < s.len() {
            end - from
        } else {
            -1
        },
    ensures
        end < s.len() ==> split_pairs(s.skip(from)) == seq![s.subrange(from, end)] + split_pairs(
            s.skip(end + 1),
        ),
        end == s.len() ==> split_pairs(s.skip(from)) == seq![s.subrange(from, end)],
{
    let r = s.skip(from);
    if end < s.len() {
        assert(r.take(end - from) =~= s.subrange(from, end));
        assert(r.skip(end - from + 1) =~= s.skip(end + 1));
    } else {
        assert(r =~= s.subrange(from, end));
    }
}

/// `chars[start..end]` equals `key`.
fn range_equals(chars: &Vec<char>, start: usize, end: usize, key: &Vec<char>) -> (r: bool)
    requires
        start <= end <= chars@.len(),
    ensures
        r == (chars@.subrange(start as int, end as int) == key@),
{
    if end - start != key.len() {
        return false;
    }
    let mut i: usize = 0;
    while i < key.len()
        invariant
            end - start == key@.len(),
            start <= end <= chars@.len(),
            i <= key@.len(),
            forall|j: int| 0 <= j < i ==> chars@[start + j] == #[trigger] key@[j],
        decreases key@.len() - i,
    {
        if chars[start + i] != key[i] {
            proof {
                assert(chars@.subrange(start as int, end as int)[i as int] != key@[i as int]);
            }
            return false;
        }
        i = i + 1;
    }
    proof {
        assert(chars@.subrange(start as int, end as int) =~= key@);
    }
    true
}

/// The value of the digits `d` grows with every digit appended.
proof fn lemma_digits_value_prefix(d: Seq<char>, i: int)
    requires
        0 <= i <= d.len(),
    ensures
        digits_value(d.take(i)) <= digits_value(d),
    decreases d.len() - i,
{
    if i < d.len() {
        lemma_digits_value_prefix(d, i + 1);
        assert(d.take(i + 1).drop_last() =~= d.take(i));
    } else {
        assert(d.take(i) =~= d);
    }
}

/// `u64::from_str` on `chars[start..end]`.
fn parse_u64_range(chars: &Vec<char>, start: usize, end: usize) -> (r: Option<u64>)
    requires
        start <= end <= chars@.len(),
    ensures
        r == parse_u64(chars@.subrange(start as int, end as int)),
{
    let ghost s = chars@.subrange(start as int, end as int);
    let mut from = start;
    if start < end && chars[start] == '+' {
        from = start + 1;
    }
    let ghost d = chars@.subrange(from as int, end as int);
    proof {
        if start < end {
            assert(s[0] == chars@[start as int]);
        }
        if start < end && chars@[start as int] == '+' {
            assert(d =~= s.drop_first());
        } else {
            assert(d =~= s);
        }
    }
    if from == end {
        return None;
    }
    let mut value: u64 = 0;
    let mut i = from;
    while i < end
        invariant
            start <= from <= i <= end <= chars@.len(),
            d == chars@.subrange(from as int, end as int),
            s == chars@.subrange(start as int, end as int),
            d == unsigned_digits(s),
            d.len() > 0,
            forall|j: int| 0 <= j < i - from ==> is_digit(#[trigger] d[j]),
            value == digits_value(d.take(i - from)),
        decreases end - i,
    {
        let c = chars[i];
        if !('0' <= c && c <= '9') {
            proof {
                assert(!is_digit(d[i - from]));
            }
            return None;
        }
        let digit = (c as u32 - '0' as u32) as u64;
        proof {
            assert(d.take(i - from + 1).drop_last() =~= d.take(i - from));
            assert(d.take(i - from + 1).last() == c);
        }
        match value.checked_mul(10) {
            Some(m) => match m.checked_add(digit) {
                Some(v) => {
                    value = v;
                },
                None => {
                    proof {
                        lemma_digits_value_prefix(d, i - from + 1);
                    }
                    return None;
                },
            },
            None => {
                proof {
                    lemma_digits_value_prefix(d, i - from + 1);
                }
                return None;
            },
        }
        i = i + 1;
    }
    proof {
        assert(d.take(d.len() as int) =~= d);
    }
    Some(value)
}

/// A list of pairs that starts with `pair` holds `x` when `pair` is `x` or
/// the rest holds it.
proof fn lemma_contains_cons(pair: Seq<char>, tail: Seq<Seq<char>>, x: Seq<char>)
    ensures
        (seq![pair] + tail).contains(x) == (pair == x || tail.contains(x)),
{
    let all = seq![pair] + tail;
    assert(all[0] == pair);
    if tail.contains(x) {
        let k = choose|k: int| 0 <= k < tail.len() && tail[k] == x;
        assert(all[k + 1] == tail[k]);
    }
    if all.contains(x) && pair != x {
        let k = choose|k: int| 0 <= k < all.len() && all[k] == x;
        assert(k != 0);
        assert(tail[k - 1] == all[k]);
    }
}

/// The first category named in a list of pairs that starts with `pair`.
proof fn lemma_first_category_cons(pair: Seq<char>, tail: Seq<Seq<char>>)
    ensures
        first_category(seq![pair] + tail) == match pair_category(pair) {
            Some(v) => Some(v),
            None => first_category(tail),
        },
{
    let all = seq![pair] + tail;
    assert(all[0] == pair);
    assert(all.drop_first() =~= tail);
}

/// The category id that the pair `chars[start..end]` names.
fn pair_category_at(chars: &Vec<char>, start: usize, end: usize, key: &Vec<char>) -> (r: Option<u64>)
    requires
        start <= end <= chars@.len(),
        key@ == category_key(),
    ensures
        r == pair_category(chars@.subrange(start as int, end as int)),
{
    let ghost pair = chars@.subrange(start as int, end as int);
    if end - start >= 9 {
        proof {
            assert(pair.take(9) =~= chars@.subrange(start as int, start + 9));
            assert(pair.skip(9) =~= chars@.subrange(start + 9, end as int));
        }
        if range_equals(chars, start, start + 9, key) {
            return parse_u64_range(chars, start + 9, end);
        }
    }
    None
}

/// The category id that the query selects, as the product list reads it:
/// the first pair `category=<n>` whose `n` is a valid `u64`.
pub fn category_filter(query: Option<&str>) -> (r: Option<u64>)
    ensures
        r == match query {
            Some(q) => first_category(split_pairs(q@)),
            None => None,
        },
{
    let q = match query {
        Some(q) => q,
        None => return None,
    };
    let chars = chars_of(q);
    let key: Vec<char> = vec!['c', 'a', 't', 'e', 'g', 'o', 'r', 'y', '='];
    proof {
        assert(key@ =~= category_key());
        assert(chars@.skip(0) =~= chars@);
    }
    let mut pos: usize = 0;
    loop
        invariant
            pos <= chars@.len(),
            chars@ == q@,
            query == Some(q),
            key@ == category_key(),
            first_category(split_pairs(q@)) == first_category(split_pairs(chars@.skip(pos as int))),
        decreases chars@.len() - pos,
    {
        let end = next_amp(&chars, pos);
        proof {
            lemma_split_step(chars@, pos as int, end as int);
        }
        let ghost pair = chars@.subrange(pos as int, end as int);
        let found = pair_category_at(&chars, pos, end, &key);
        proof {
            if end < chars@.len() {
                lemma_first_category_cons(pair, split_pairs(chars@.skip(end + 1)));
            } else {
                lemma_first_category_cons(pair, Seq::empty());
                assert(seq![pair] + Seq::<Seq<char>>::empty() =~= seq![pair]);
            }
        }
        if found.is_some() {
            return found;
        }
        if end == chars.len() {
            return None;
        }
        pos = end + 1;
    }
}

/// Whether the query holds the pair `approved_only=true`.
pub fn approved_only(query: Option<&str>) -> (r: bool)
    ensures
        r == match query {
            Some(q) => split_pairs(q@).contains(approved_only_pair()),
            None => false,
        },
{
    let q = match query {
        Some(q) => q,
        None => return false,
    };
    let chars = chars_of(q);
    let key: Vec<char> = vec![
        'a', 'p', 'p', 'r', 'o', 'v', 'e', 'd', '_', 'o', 'n', 'l', 'y', '=', 't', 'r', 'u', 'e',
    ];
    proof {
        assert(key@ =~= approved_only_pair());
        assert(chars@.skip(0) =~= chars@);
    }
    let mut pos: usize = 0;
    loop
        invariant
            pos <= chars@.len(),
            chars@ == q@,
            query == Some(q),
            key@ == approved_only_pair(),
            split_pairs(q@).contains(approved_only_pair()) == split_pairs(chars@.skip(pos as int)).contains(
                approved_only_pair(),
            ),
        decreases chars@.len() - pos,
    {
        let end = next_amp(&chars, pos);
        let ghost pair = chars@.subrange(pos as int, end as int);
        proof {
            lemma_split_step(chars@, pos as int, end as int);
            if end < chars@.len() {
                lemma_contains_cons(pair, split_pairs(chars@.skip(end + 1)), approved_only_pair());
            } else {
                lemma_contains_cons(pair, Seq::empty(), approved_only_pair());
                assert(seq![pair] + Seq::<Seq<char>>::empty() =~= seq![pair]);
            }
        }
        if range_equals(&chars, pos, end, &key) {
            return true;
        }
        if end == chars.len() {
            return false;
        }
        pos = end + 1;
    }
}

} // verus!
