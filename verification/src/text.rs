//! Text helpers: comparison, prefixes, splitting, trimming and decimal numbers, all stated over
//! the characters of a string.

use vstd::prelude::*;
use vstd::string::StringExecFns;

verus! {

/// Appends one character, as `String::push` documents.
pub assume_specification[ std::string::String::push ](s: &mut std::string::String, c: char)
    ensures
        final(s)@ == old(s)@.push(c),
;

/// The characters of `text`, in order.
pub fn chars_of(text: &str) -> (chars: Vec<char>)
    ensures
        chars@ == text@,
{
    let mut chars: Vec<char> = Vec::new();
    for c in it: text.chars()
        invariant
            it.seq() == text@,
            chars@ == text@.take(it.index() as int),
    {
        chars.push(c);
        assert(chars@ =~= text@.take(it.index() as int + 1));
    }
    assert(text@.take(text@.len() as int) =~= text@);
    chars
}

/// The string that consists of `chars[from..to]`.
pub fn text_of(chars: &Vec<char>, from: usize, to: usize) -> (text: String)
    requires
        from <= to <= chars@.len(),
    ensures
        text@ == chars@.subrange(from as int, to as int),
{
    let mut text = String::new();
    let mut i: usize = from;
    while i < to
        invariant
            from <= i <= to <= chars@.len(),
            text@ == chars@.subrange(from as int, i as int),
        decreases to - i,
    {
        text.push(chars[i]);
        i += 1;
        assert(chars@.subrange(from as int, i as int) =~= chars@.subrange(
            from as int,
            i - 1,
        ).push(chars@[i - 1]));
    }
    text
}

/// Whether both strings hold the same characters.
pub fn same_text(a: &str, b: &str) -> (r: bool)
    ensures
        r == (a@ == b@),
{
    let x = chars_of(a);
    let y = chars_of(b);
    if x.len() != y.len() {
        return false;
    }
    let mut i: usize = 0;
    while i < x.len()
        invariant
            i <= x.len(),
            x.len() == y.len(),
            x@ == a@,
            y@ == b@,
            forall|j: int| 0 <= j < i ==> x@[j] == y@[j],
        decreases x.len() - i,
    {
        if x[i] != y[i] {
            assert(a@[i as int] != b@[i as int]);
            return false;
        }
        i += 1;
    }
    assert(a@ =~= b@);
    true
}

/// Whether `text` begins with `prefix`.
pub open spec fn begins_with(text: Seq<char>, prefix: Seq<char>) -> bool {
    prefix.len() <= text.len() && text.take(prefix.len() as int) == prefix
}

pub fn starts_with(text: &str, prefix: &str) -> (r: bool)
    ensures
        r == begins_with(text@, prefix@),
{
    let x = chars_of(text);
    let y = chars_of(prefix);
    if y.len() > x.len() {
        return false;
    }
    let mut i: usize = 0;
    while i < y.len()
        invariant
            i <= y.len() <= x.len(),
            x@ == text@,
            y@ == prefix@,
            forall|j: int| 0 <= j < i ==> x@[j] == y@[j],
        decreases y.len() - i,
    {
        if x[i] != y[i] {
            assert(text@.take(prefix@.len() as int)[i as int] != prefix@[i as int]);
            return false;
        }
        i += 1;
    }
    assert(text@.take(prefix@.len() as int) =~= prefix@);
    true
}

/// The concatenation of two strings.
pub fn join2(a: &str, b: &str) -> (r: String)
    ensures
        r@ == a@ + b@,
{
    let mut r = a.to_owned();
    r.append(b);
    r
}

/// The concatenation of three strings.
pub fn join3(a: &str, b: &str, c: &str) -> (r: String)
    ensures
        r@ == a@ + b@ + c@,
{
    let mut r = a.to_owned();
    r.append(b);
    r.append(c);
    r
}

/// A decimal digit as a character.
pub open spec fn digit_char(d: int) -> char {
    if d == 0 {
        '0'
    } else if d == 1 {
        '1'
    } else if d == 2 {
        '2'
    } else if d == 3 {
        '3'
    } else if d == 4 {
        '4'
    } else if d == 5 {
        '5'
    } else if d == 6 {
        '6'
    } else if d == 7 {
        '7'
    } else if d == 8 {
        '8'
    } else {
        '9'
    }
}

/// The decimal notation of a natural number, without leading zeros.
pub open spec fn decimal_text(n: nat) -> Seq<char>
    decreases n,
{
    if n < 10 {
        seq![digit_char(n as int)]
    } else {
        decimal_text(n / 10).push(digit_char((n % 10) as int))
    }
}

/// The decimal notation of an integer, with a minus sign where it is negative.
pub open spec fn integer_text(n: int) -> Seq<char> {
    if n < 0 {
        seq!['-'] + decimal_text((-n) as nat)
    } else {
        decimal_text(n as nat)
    }
}

fn digit(d: u64) -> (c: char)
    requires
        d < 10,
    ensures
        c == digit_char(d as int),
{
    if d == 0 {
        '0'
    } else if d == 1 {
        '1'
    } else if d == 2 {
        '2'
    } else if d == 3 {
        '3'
    } else if d == 4 {
        '4'
    } else if d == 5 {
        '5'
    } else if d == 6 {
        '6'
    } else if d == 7 {
        '7'
    } else if d == 8 {
        '8'
    } else {
        '9'
    }
}

/// The decimal notation of `n`.
pub fn decimal(n: u64) -> (text: String)
    ensures
        text@ == decimal_text(n as nat),
    decreases n,
{
    let mut text = if n < 10 {
        String::new()
    } else {
        decimal(n / 10)
    };
    text.push(digit(n % 10));
    assert(text@ =~= decimal_text(n as nat));
    text
}

/// The decimal notation of `n`, with its sign.
pub fn integer(n: i64) -> (text: String)
    ensures
        text@ == integer_text(n as int),
{
    if n < 0 {
        let mut text = String::new();
        text.push('-');
        let magnitude: u64 = (-(n as i128)) as u64;
        let digits = decimal(magnitude);
        text.append(digits.as_str());
        assert(text@ =~= integer_text(n as int));
        text
    } else {
        decimal(n as u64)
    }
}

// ---------------------------------------------------------------------------------------------
// Splitting
// ---------------------------------------------------------------------------------------------

/// The parts of `s` between the occurrences of `c`; at least one.
pub open spec fn split_on(s: Seq<char>, c: char) -> Seq<Seq<char>>
    decreases s.len(),
{
    if s.len() == 0 {
        seq![Seq::empty()]
    } else {
        let parts = split_on(s.drop_last(), c);
        if s.last() == c {
            parts.push(Seq::empty())
        } else {
            parts.drop_last().push(parts.last().push(s.last()))
        }
    }
}

pub open spec fn texts_view(v: Seq<String>) -> Seq<Seq<char>> {
    Seq::new(v.len(), |i: int| v[i]@)
}

/// Splits a string at a character.
pub fn split(text: &str, c: char) -> (parts: Vec<String>)
    ensures
        texts_view(parts@) == split_on(text@, c),
        parts@.len() > 0,
{
    let chars = chars_of(text);
    let mut parts: Vec<String> = Vec::new();
    let mut current = String::new();
    let mut i: usize = 0;
    assert(text@.take(0) =~= Seq::empty());
    assert(texts_view(parts@).push(current@) =~= seq![Seq::<char>::empty()]);
    while i < chars.len()
        invariant
            i <= chars@.len(),
            chars@ == text@,
            texts_view(parts@).push(current@) == split_on(text@.take(i as int), c),
        decreases chars@.len() - i,
    {
        let ghost before = texts_view(parts@).push(current@);
        let ghost old_parts = texts_view(parts@);
        proof {
            assert(text@.take(i + 1).drop_last() =~= text@.take(i as int));
            assert(text@.take(i + 1).last() == chars@[i as int]);
            assert(before.drop_last() =~= old_parts);
        }
        if chars[i] == c {
            parts.push(current);
            current = String::new();
            assert(texts_view(parts@) =~= before);
        } else {
            current.push(chars[i]);
        }
        i += 1;
    }
    assert(text@.take(i as int) =~= text@);
    let ghost last = current@;
    let ghost old_parts = texts_view(parts@);
    parts.push(current);
    assert(texts_view(parts@) =~= old_parts.push(last));
    parts
}

/// A text without the separator is one part.
pub proof fn lemma_split_whole(tail: Seq<char>, c: char)
    requires
        !tail.contains(c),
    ensures
        split_on(tail, c) == seq![tail],
    decreases tail.len(),
{
    if tail.len() > 0 {
        assert(tail.contains(tail.last()));
        assert forall|i: int| 0 <= i < tail.drop_last().len() implies tail.drop_last()[i] != c by {
            assert(tail.contains(tail[i]));
        }
        lemma_split_whole(tail.drop_last(), c);
        let parts = split_on(tail.drop_last(), c);
        assert(parts.drop_last() =~= Seq::empty());
        assert(tail.drop_last().push(tail.last()) =~= tail);
        assert(parts.drop_last().push(tail) =~= seq![tail]);
    } else {
        assert(tail =~= Seq::empty());
    }
}

/// A text without the separator is the last part where it follows a separator.
pub proof fn lemma_split_tail(s: Seq<char>, tail: Seq<char>, c: char)
    requires
        !tail.contains(c),
    ensures
        split_on(s + seq![c] + tail, c) == split_on(s, c).push(tail),
    decreases tail.len(),
{
    let all = s + seq![c] + tail;
    if tail.len() == 0 {
        assert(all.last() == c);
        assert(all.drop_last() =~= s);
        assert(tail =~= Seq::empty());
    } else {
        assert(tail.contains(tail.last()));
        assert forall|i: int| 0 <= i < tail.drop_last().len() implies tail.drop_last()[i] != c by {
            assert(tail.contains(tail[i]));
        }
        lemma_split_tail(s, tail.drop_last(), c);
        assert(all.drop_last() =~= s + seq![c] + tail.drop_last());
        assert(all.last() == tail.last());
        assert(tail.drop_last().push(tail.last()) =~= tail);
        let parts = split_on(s, c).push(tail.drop_last());
        assert(parts.drop_last() =~= split_on(s, c));
    }
}

/// The first position of `c` in `s`, or its length.
pub open spec fn first_position(s: Seq<char>, c: char) -> int
    decreases s.len(),
{
    if s.len() == 0 {
        0
    } else if s[0] == c {
        0
    } else {
        1 + first_position(s.skip(1), c)
    }
}

pub proof fn lemma_first_position(s: Seq<char>, c: char)
    ensures
        0 <= first_position(s, c) <= s.len(),
        first_position(s, c) < s.len() ==> s[first_position(s, c)] == c,
        forall|i: int| 0 <= i < first_position(s, c) ==> #[trigger] s[i] != c,
    decreases s.len(),
{
    if s.len() > 0 && s[0] != c {
        lemma_first_position(s.skip(1), c);
        assert forall|i: int| 0 <= i < first_position(s, c) implies #[trigger] s[i] != c by {
            if i > 0 {
                assert(s.skip(1)[i - 1] == s[i]);
            }
        }
    }
}

/// The first position of `c` among `chars`, or their number.
pub fn position_of(chars: &Vec<char>, c: char) -> (r: usize)
    ensures
        r == first_position(chars@, c),
        r <= chars@.len(),
{
    let mut i: usize = 0;
    while i < chars.len()
        invariant
            i <= chars@.len(),
            forall|j: int| 0 <= j < i ==> #[trigger] chars@[j] != c,
        decreases chars@.len() - i,
    {
        if chars[i] == c {
            proof {
                lemma_first_position(chars@, c);
            }
            return i;
        }
        i += 1;
    }
    proof {
        lemma_first_position(chars@, c);
    }
    i
}

// ---------------------------------------------------------------------------------------------
// Reading numbers
// ---------------------------------------------------------------------------------------------

pub open spec fn is_digit(c: char) -> bool {
    '0' <= c <= '9'
}

/// The number that a sequence of digits denotes.
pub open spec fn digits_value(s: Seq<char>) -> nat
    decreases s.len(),
{
    if s.len() == 0 {
        0
    } else {
        digits_value(s.drop_last()) * 10 + (s.last() as int - '0' as int) as nat
    }
}

/// At least one digit, and nothing else.
pub open spec fn all_digits(s: Seq<char>) -> bool {
    s.len() > 0 && forall|i: int| 0 <= i < s.len() ==> is_digit(#[trigger] s[i])
}

/// The natural number in decimal notation, with an optional plus sign.
pub open spec fn natural_value(s: Seq<char>) -> Option<nat> {
    if s.len() > 0 && s[0] == '+' {
        if all_digits(s.skip(1)) {
            Some(digits_value(s.skip(1)))
        } else {
            None
        }
    } else if all_digits(s) {
        Some(digits_value(s))
    } else {
        None
    }
}

/// The integer in decimal notation, with an optional sign.
pub open spec fn integer_value(s: Seq<char>) -> Option<int> {
    if s.len() > 0 && s[0] == '-' {
        if all_digits(s.skip(1)) {
            Some(-(digits_value(s.skip(1)) as int))
        } else {
            None
        }
    } else {
        match natural_value(s) {
            Some(n) => Some(n as int),
            None => None,
        }
    }
}

proof fn lemma_digits_grow(s: Seq<char>, i: int)
    requires
        0 <= i <= s.len(),
        forall|j: int| 0 <= j < s.len() ==> is_digit(#[trigger] s[j]),
    ensures
        digits_value(s.take(i)) <= digits_value(s),
    decreases s.len() - i,
{
    if i < s.len() {
        assert(s.take(i + 1).drop_last() =~= s.take(i));
        lemma_digits_grow(s, i + 1);
    } else {
        assert(s.take(i) =~= s);
    }
}

/// The number that `chars[from..]` denotes, where it is digits only and at most `max`.
fn parse_digits(chars: &Vec<char>, from: usize, max: u64) -> (r: Option<u64>)
    requires
        from <= chars@.len(),
    ensures
        match r {
            Some(n) => all_digits(chars@.skip(from as int)) && n == digits_value(
                chars@.skip(from as int),
            ) && n <= max,
            None => !all_digits(chars@.skip(from as int)) || digits_value(chars@.skip(from as int))
                > max,
        },
{
    let ghost s = chars@.skip(from as int);
    if from == chars.len() {
        return None;
    }
    let mut n: u128 = 0;
    let mut i: usize = from;
    assert(s.take(0) =~= Seq::empty());
    while i < chars.len()
        invariant
            from <= i <= chars@.len(),
            s == chars@.skip(from as int),
            n == digits_value(s.take(i - from)),
            n <= max,
            forall|j: int| 0 <= j < i - from ==> is_digit(#[trigger] s[j]),
        decreases chars@.len() - i,
    {
        let c = chars[i];
        assert(s[i - from] == c);
        if c < '0' || c > '9' {
            assert(!is_digit(s[i - from]));
            return None;
        }
        proof {
            assert(s.take(i - from + 1).drop_last() =~= s.take(i - from));
            assert(s.take(i - from + 1).last() == c);
        }
        n = n * 10 + ((c as u32) - ('0' as u32)) as u128;
        i += 1;
        if n > max as u128 {
            proof {
                if all_digits(s) {
                    lemma_digits_grow(s, i - from);
                }
            }
            return None;
        }
    }
    assert(s.take(i - from) =~= s);
    Some(n as u64)
}

/// Reads a natural number that is at most `max`.
pub fn parse_natural(text: &str, max: u64) -> (r: Option<u64>)
    ensures
        match r {
            Some(n) => natural_value(text@) == Some(n as nat) && n <= max,
            None => natural_value(text@) matches Some(n) ==> n > max,
        },
{
    let chars = chars_of(text);
    if chars.len() > 0 && chars[0] == '+' {
        parse_digits(&chars, 1, max)
    } else {
        assert(chars@.skip(0) =~= chars@);
        parse_digits(&chars, 0, max)
    }
}

/// Reads an integer of 64 bits.
pub fn parse_i64(text: &str) -> (r: Option<i64>)
    ensures
        match r {
            Some(n) => integer_value(text@) == Some(n as int),
            None => integer_value(text@) matches Some(n) ==> n < i64::MIN || n > i64::MAX,
        },
{
    let chars = chars_of(text);
    if chars.len() > 0 && chars[0] == '-' {
        match parse_digits(&chars, 1, 0x8000_0000_0000_0000) {
            Some(n) => Some((-(n as i128)) as i64),
            None => None,
        }
    } else {
        match parse_natural(text, 0x7fff_ffff_ffff_ffff) {
            Some(n) => Some(n as i64),
            None => None,
        }
    }
}

/// The decimal notation of a number is digits only and denotes the number.
pub proof fn lemma_decimal_round_trip(n: nat)
    ensures
        all_digits(decimal_text(n)),
        digits_value(decimal_text(n)) == n,
        natural_value(decimal_text(n)) == Some(n),
    decreases n,
{
    let s = decimal_text(n);
    if n < 10 {
        assert(s.drop_last() =~= Seq::empty());
        assert(digits_value(s.drop_last()) == 0);
    } else {
        lemma_decimal_round_trip(n / 10);
        assert(s.drop_last() =~= decimal_text(n / 10));
        assert forall|i: int| 0 <= i < s.len() implies is_digit(#[trigger] s[i]) by {
            if i < s.len() - 1 {
                assert(s[i] == decimal_text(n / 10)[i]);
            }
        }
    }
    assert(is_digit(s[0]));
}

} // verus!
