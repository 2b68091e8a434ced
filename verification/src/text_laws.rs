//! Laws of text: what numbers are read and written, and what splitting and joining keep.

use vstd::prelude::*;

use crate::text::{
    all_digits, begins_with, chars_of, decimal, decimal_text, digits_value, integer, is_digit,
    join2, join3, lemma_decimal_round_trip, lemma_first_position, natural_value, parse_i64, parse_natural,
    position_of, same_text, split, split_on, starts_with, text_of, texts_view,
};

verus! {

/// A power of ten.
pub open spec fn ten_to(n: nat) -> nat
    decreases n,
{
    if n == 0 {
        1
    } else {
        10 * ten_to((n - 1) as nat)
    }
}

/// What digits are worth, each at its place.
pub open spec fn worth(s: Seq<char>) -> int
    decreases s.len(),
{
    if s.len() == 0 {
        0
    } else {
        (s[0] as int - '0' as int) * ten_to((s.len() - 1) as nat) + worth(s.skip(1))
    }
}

/// One digit or more, and nothing else.
pub open spec fn digits(s: Seq<char>) -> bool {
    s.len() > 0 && forall|i: int| 0 <= i < s.len() ==> '0' <= #[trigger] s[i] && s[i] <= '9'
}

pub proof fn lemma_worth_pushed(s: Seq<char>, c: char)
    ensures
        worth(s.push(c)) == 10 * worth(s) + (c as int - '0' as int),
    decreases s.len(),
{
    let all = s.push(c);
    if s.len() == 0 {
        assert(all.skip(1) =~= Seq::empty());
        assert(worth(all.skip(1)) == 0);
        assert(ten_to(0) == 1);
        let d = c as int - '0' as int;
        assert(d * 1 == d);
        assert(worth(all) == d * ten_to(0) + worth(all.skip(1)));
    } else {
        lemma_worth_pushed(s.skip(1), c);
        assert(all.skip(1) =~= s.skip(1).push(c));
        let d = s[0] as int - '0' as int;
        let p = ten_to((s.len() - 1) as nat) as int;
        assert(ten_to(s.len()) == 10 * p);
        assert(d * (10 * p) == 10 * (d * p)) by (nonlinear_arith);
        assert(worth(all) == d * ten_to(s.len()) + worth(all.skip(1)));
        assert(worth(s) == d * p + worth(s.skip(1)));
    }
}

proof fn lemma_worth(s: Seq<char>)
    requires
        forall|i: int| 0 <= i < s.len() ==> is_digit(#[trigger] s[i]),
    ensures
        digits_value(s) == worth(s),
    decreases s.len(),
{
    if s.len() > 0 {
        lemma_worth(s.drop_last());
        lemma_worth_pushed(s.drop_last(), s.last());
        assert(s.drop_last().push(s.last()) =~= s);
        assert(is_digit(s[s.len() - 1]));
    }
}

/// What a text denotes is what its digits are worth.
pub proof fn lemma_natural_worth(text: Seq<char>)
    ensures
        ({
            let s = if text.len() > 0 && text[0] == '+' {
                text.skip(1)
            } else {
                text
            };
            &&& natural_value(text) is Some <==> digits(s)
            &&& natural_value(text) matches Some(n) ==> n == worth(s)
            &&& worth(s) >= 0 || !digits(s)
        }),
{
    let s = if text.len() > 0 && text[0] == '+' {
        text.skip(1)
    } else {
        text
    };
    assert(digits(s) <==> all_digits(s));
    if digits(s) {
        lemma_worth(s);
    }
}

/// A natural number is read from digits alone, behind a plus sign or not: it is what the digits
/// are worth, where that is not above the limit.
pub proof fn lemma_natural_read(text: &str, max: u64, r: Option<u64>)
    requires
        call_ensures(parse_natural, (text, max), r),
    ensures
        ({
            let s = if text@.len() > 0 && text@[0] == '+' {
                text@.skip(1)
            } else {
                text@
            };
            &&& r is Some <==> digits(s) && worth(s) <= max
            &&& r matches Some(n) ==> n == worth(s)
        }),
{
    let s = if text@.len() > 0 && text@[0] == '+' {
        text@.skip(1)
    } else {
        text@
    };
    assert(digits(s) <==> all_digits(s));
    if digits(s) {
        lemma_worth(s);
    }
}

/// An integer is read from digits alone, behind a sign or not.
pub proof fn lemma_integer_read(text: &str, r: Option<i64>)
    requires
        call_ensures(parse_i64, (text,), r),
    ensures
        ({
            let s = if text@.len() > 0 && (text@[0] == '+' || text@[0] == '-') {
                text@.skip(1)
            } else {
                text@
            };
            let value = if text@.len() > 0 && text@[0] == '-' {
                -worth(s)
            } else {
                worth(s)
            };
            &&& r is Some <==> digits(s) && i64::MIN <= value <= i64::MAX
            &&& r matches Some(n) ==> n == value
        }),
{
    let s = if text@.len() > 0 && (text@[0] == '+' || text@[0] == '-') {
        text@.skip(1)
    } else {
        text@
    };
    assert(digits(s) <==> all_digits(s));
    if digits(s) {
        lemma_worth(s);
    }
}

proof fn lemma_decimal_shape(n: nat)
    ensures
        decimal_text(n).len() > 0,
        n > 0 ==> decimal_text(n)[0] != '0',
        n < 10 ==> decimal_text(n).len() == 1,
    decreases n,
{
    if n >= 10 {
        lemma_decimal_shape(n / 10);
        assert(decimal_text(n)[0] == decimal_text(n / 10)[0]);
    }
}

/// A number is written as digits that are worth the number, without zeros in front.
pub proof fn lemma_natural_written(n: u64, r: String)
    requires
        call_ensures(decimal, (n,), r),
    ensures
        digits(r@),
        worth(r@) == n,
        n > 0 ==> r@[0] != '0',
        n == 0 ==> r@.len() == 1,
{
    lemma_decimal_round_trip(n as nat);
    lemma_decimal_shape(n as nat);
    lemma_worth(r@);
    assert forall|i: int| 0 <= i < r@.len() implies '0' <= #[trigger] r@[i] && r@[i] <= '9' by {
        assert(is_digit(r@[i]));
    }
}

/// The same of an integer, behind a minus sign where it is negative.
pub proof fn lemma_integer_written(n: i64, r: String)
    requires
        call_ensures(integer, (n,), r),
    ensures
        n >= 0 ==> digits(r@) && worth(r@) == n,
        n < 0 ==> r@.len() > 0 && r@[0] == '-' && digits(r@.skip(1)) && worth(r@.skip(1)) == -n,
{
    let m: nat = if n < 0 {
        (-n) as nat
    } else {
        n as nat
    };
    let s = decimal_text(m);
    lemma_decimal_round_trip(m);
    lemma_worth(s);
    assert(digits(s)) by {
        assert forall|i: int| 0 <= i < s.len() implies '0' <= #[trigger] s[i] && s[i] <= '9' by {
            assert(is_digit(s[i]));
        }
    }
    if n < 0 {
        assert(r@.skip(1) =~= s);
    }
}

/// A number that was written is read again.
pub proof fn lemma_natural_back(n: u64, text: String, same: &str, max: u64, r: Option<u64>)
    requires
        call_ensures(decimal, (n,), text),
        same@ == text@,
        call_ensures(parse_natural, (same, max), r),
    ensures
        r == if n <= max {
            Some(n)
        } else {
            None
        },
{
    lemma_decimal_round_trip(n as nat);
}

/// An integer that was written is read again.
pub proof fn lemma_integer_back(n: i64, text: String, same: &str, r: Option<i64>)
    requires
        call_ensures(integer, (n,), text),
        same@ == text@,
        call_ensures(parse_i64, (same,), r),
    ensures
        r == Some(n),
{
    let m: nat = if n < 0 {
        (-n) as nat
    } else {
        n as nat
    };
    lemma_decimal_round_trip(m);
    if n < 0 {
        assert(text@.skip(1) =~= decimal_text(m));
    } else {
        assert(is_digit(text@[0]));
    }
}

/// Parts with a character between them.
pub open spec fn between(parts: Seq<Seq<char>>, c: char) -> Seq<char>
    decreases parts.len(),
{
    if parts.len() == 0 {
        Seq::empty()
    } else if parts.len() == 1 {
        parts[0]
    } else {
        between(parts.drop_last(), c).push(c) + parts.last()
    }
}

proof fn lemma_between_last(front: Seq<Seq<char>>, last: Seq<char>, x: char, c: char)
    ensures
        between(front.push(last.push(x)), c) == between(front.push(last), c).push(x),
{
    assert(front.push(last.push(x)).drop_last() =~= front);
    assert(front.push(last).drop_last() =~= front);
    assert(between(front.push(last.push(x)), c) =~= between(front.push(last), c).push(x));
}

proof fn lemma_split_parts(s: Seq<char>, c: char)
    ensures
        split_on(s, c).len() > 0,
        between(split_on(s, c), c) == s,
        forall|i: int| 0 <= i < split_on(s, c).len() ==> !(#[trigger] split_on(s, c)[i]).contains(c),
    decreases s.len(),
{
    if s.len() == 0 {
        assert(split_on(s, c)[0] =~= s);
    } else {
        let front = s.drop_last();
        lemma_split_parts(front, c);
        let parts = split_on(front, c);
        let all = split_on(s, c);
        assert(front.push(s.last()) =~= s);
        if s.last() == c {
            assert(all.drop_last() =~= parts);
            assert(between(all, c) =~= s);
        } else {
            lemma_between_last(parts.drop_last(), parts.last(), s.last(), c);
            assert(parts.drop_last().push(parts.last()) =~= parts);
            assert(!parts[parts.len() - 1].contains(c));
            assert forall|i: int| 0 <= i < all.len() implies !(#[trigger] all[i]).contains(c) by {
                if i < all.len() - 1 {
                    assert(all[i] == parts[i]);
                } else {
                    let last = parts.last();
                    assert forall|k: int| 0 <= k < all[i].len() implies all[i][k] != c by {
                        if k < last.len() {
                            assert(last.contains(last[k]));
                        }
                    }
                }
            }
        }
    }
}

/// A text is its parts with the separator between them, and no part holds the separator.
pub proof fn lemma_split_joined(text: &str, c: char, parts: Vec<String>)
    requires
        call_ensures(split, (text, c), parts),
    ensures
        parts@.len() > 0,
        between(Seq::new(parts@.len(), |i: int| parts@[i]@), c) == text@,
        forall|i: int| 0 <= i < parts@.len() ==> !(#[trigger] parts@[i])@.contains(c),
{
    lemma_split_parts(text@, c);
    assert(texts_view(parts@) =~= Seq::new(parts@.len(), |i: int| parts@[i]@));
    assert forall|i: int| 0 <= i < parts@.len() implies !(#[trigger] parts@[i])@.contains(c) by {
        assert(texts_view(parts@)[i] == parts@[i]@);
    }
}

/// A text begins with another exactly where something follows the other in it.
pub proof fn lemma_begins(text: &str, prefix: &str, r: bool)
    requires
        call_ensures(starts_with, (text, prefix), r),
    ensures
        r <==> exists|tail: Seq<char>| text@ == #[trigger] (prefix@ + tail),
{
    if r {
        let tail = text@.skip(prefix@.len() as int);
        assert(text@ =~= prefix@ + tail);
    }
    if exists|tail: Seq<char>| text@ == #[trigger] (prefix@ + tail) {
        let tail = choose|tail: Seq<char>| text@ == #[trigger] (prefix@ + tail);
        assert(text@.take(prefix@.len() as int) =~= prefix@);
        assert(begins_with(text@, prefix@));
    }
}

/// Two texts are the same exactly where they have the same characters.
pub proof fn lemma_same(a: &str, b: &str, r: bool)
    requires
        call_ensures(same_text, (a, b), r),
    ensures
        r <==> a@.len() == b@.len() && forall|i: int| 0 <= i < a@.len() ==> a@[i] == b@[i],
{
    if a@.len() == b@.len() && forall|i: int| 0 <= i < a@.len() ==> a@[i] == b@[i] {
        assert(a@ =~= b@);
    }
}

/// What is joined keeps its order.
pub proof fn lemma_joined(a: &str, b: &str, c: &str, two: String, three: String)
    requires
        call_ensures(join2, (a, b), two),
        call_ensures(join3, (a, b, c), three),
    ensures
        two@.len() == a@.len() + b@.len(),
        forall|i: int| 0 <= i < a@.len() ==> two@[i] == a@[i],
        forall|i: int| 0 <= i < b@.len() ==> two@[a@.len() + i] == b@[i],
        three@ == two@ + c@,
{
}

/// The characters of a text and a part of them.
pub proof fn lemma_part(text: &str, chars: Vec<char>, from: usize, to: usize, part: String)
    requires
        call_ensures(chars_of, (text,), chars),
        from <= to <= chars@.len(),
        call_ensures(text_of, (&chars, from, to), part),
    ensures
        text@ == text@.take(from as int) + part@ + text@.skip(to as int),
        part@.len() == to - from,
{
    assert(text@ =~= text@.take(from as int) + part@ + text@.skip(to as int));
}

/// The position of a character is where it stands and stood nowhere before.
pub proof fn lemma_position(chars: Vec<char>, c: char, r: usize)
    requires
        call_ensures(position_of, (&chars, c), r),
    ensures
        r <= chars@.len(),
        r < chars@.len() ==> chars@[r as int] == c,
        !chars@.take(r as int).contains(c),
{
    lemma_first_position(chars@, c);
}

} // verus!
