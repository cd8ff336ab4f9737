//! Characters and strings: what the rest of the crate needs beyond `vstd`.

use vstd::prelude::*;

verus! {

/// `String::push` appends one character at the end.
pub assume_specification[ std::string::String::push ](s: &mut std::string::String, c: char)
    ensures
        final(s)@ == old(s)@.push(c),
;

/// `String::from` on a `&str`: the same characters.
pub assume_specification<'a>[ <std::string::String as std::convert::From<&'a str>>::from ](
    s: &str,
) -> (owned: std::string::String)
    ensures
        owned@ == s@,
;

/// `From` of a type for itself: the value as it is. This is what `into` does to a `String`
/// where a `String` is wanted.
pub assume_specification<Value>[ <Value as std::convert::From<Value>>::from ](v: Value) -> (same:
    Value)
    ensures
        same == v,
;

/// `needle` stands in `text` at index `i`.
pub open spec fn occurs_at(text: Seq<char>, needle: Seq<char>, i: int) -> bool {
    &&& 0 <= i
    &&& i + needle.len() <= text.len()
    &&& forall|k: int| 0 <= k < needle.len() ==> #[trigger] text[i + k] == needle[k]
}

/// `i` is the leftmost index at which `needle` stands in `text`.
pub open spec fn first_at(text: Seq<char>, needle: Seq<char>, i: int) -> bool {
    &&& occurs_at(text, needle, i)
    &&& forall|j: int| 0 <= j < i ==> !#[trigger] occurs_at(text, needle, j)
}

/// `needle` stands somewhere in `text`.
pub open spec fn contains_text(text: Seq<char>, needle: Seq<char>) -> bool {
    exists|i: int| occurs_at(text, needle, i)
}

/// The leftmost index at which `needle` stands in `text`.
pub open spec fn first_occurrence(text: Seq<char>, needle: Seq<char>) -> Option<int> {
    if contains_text(text, needle) {
        Some(choose|i: int| first_at(text, needle, i))
    } else {
        None
    }
}

/// There is only one leftmost index.
pub proof fn lemma_first_occurrence(text: Seq<char>, needle: Seq<char>, i: int)
    requires
        first_at(text, needle, i),
    ensures
        first_occurrence(text, needle) == Some(i),
{
    let c: int = choose|j: int| first_at(text, needle, j);
    assert(first_at(text, needle, c));
    if c < i {
        assert(!occurs_at(text, needle, c));
    }
    if i < c {
        assert(!occurs_at(text, needle, i));
    }
}

/// Where `needle` stands in `text` at all, there is a leftmost index.
pub proof fn lemma_first_occurrence_is_first(text: Seq<char>, needle: Seq<char>)
    ensures
        match first_occurrence(text, needle) {
            Some(i) => first_at(text, needle, i),
            None => !contains_text(text, needle),
        },
{
    if contains_text(text, needle) {
        let i: int = choose|i: int| occurs_at(text, needle, i);
        let first: int = lemma_leftmost(text, needle, i);
        lemma_first_occurrence(text, needle, first);
    }
}

proof fn lemma_leftmost(text: Seq<char>, needle: Seq<char>, i: int) -> (first: int)
    requires
        occurs_at(text, needle, i),
    ensures
        first_at(text, needle, first),
    decreases i,
{
    if exists|j: int| 0 <= j < i && #[trigger] occurs_at(text, needle, j) {
        let j: int = choose|j: int| 0 <= j < i && #[trigger] occurs_at(text, needle, j);
        lemma_leftmost(text, needle, j)
    } else {
        i
    }
}

/// The characters of `s`, one by one.
pub fn chars_of(s: &str) -> (chars: Vec<char>)
    ensures
        chars@ == s@,
{
    let mut chars: Vec<char> = Vec::new();
    for c in iter: s.chars()
        invariant
            chars@ == s@.take(iter.index()),
            iter.seq() == s@,
    {
        chars.push(c);
    }
    chars
}

/// The string made of `chars[from..to]`.
pub fn string_of(chars: &[char], from: usize, to: usize) -> (s: String)
    requires
        from <= to <= chars@.len(),
    ensures
        s@ == chars@.subrange(from as int, to as int),
{
    let mut s = String::new();
    let mut i: usize = from;
    while i < to
        invariant
            from <= i <= to <= chars@.len(),
            s@ == chars@.subrange(from as int, i as int),
        decreases to - i,
    {
        s.push(chars[i]);
        i = i + 1;
    }
    s
}

/// Whether `needle` stands in `text` at `i`.
pub fn matches_at(text: &[char], needle: &[char], i: usize) -> (found: bool)
    ensures
        found == occurs_at(text@, needle@, i as int),
{
    let len: usize = text.len();
    if i > len || needle.len() > len - i {
        return false;
    }
    let mut k: usize = 0;
    while k < needle.len()
        invariant
            k <= needle@.len(),
            i + needle@.len() <= text@.len() == len,
            forall|j: int| 0 <= j < k ==> #[trigger] text@[i + j] == needle@[j],
        decreases needle@.len() - k,
    {
        if text[i + k] != needle[k] {
            assert(text@[i + k as int] != needle@[k as int]);
            return false;
        }
        k = k + 1;
    }
    true
}

/// The leftmost index, at or after `from`, at which `needle` stands in `text`.
pub fn find_from(text: &[char], needle: &[char], from: usize) -> (found: Option<usize>)
    requires
        from <= text@.len(),
    ensures
        match found {
            Some(i) => {
                &&& from <= i
                &&& occurs_at(text@, needle@, i as int)
                &&& forall|j: int| from <= j < i ==> !#[trigger] occurs_at(text@, needle@, j)
            },
            None => forall|j: int| from <= j ==> !#[trigger] occurs_at(text@, needle@, j),
        },
{
    let mut i: usize = from;
    while i <= text.len() && needle.len() <= text.len() - i
        invariant
            from <= i,
            i <= text@.len() + 1,
            forall|j: int| from <= j < i ==> !#[trigger] occurs_at(text@, needle@, j),
        decreases text@.len() + 1 - i,
    {
        if matches_at(text, needle, i) {
            return Some(i);
        }
        if i == text.len() {
            return None;
        }
        i = i + 1;
    }
    None
}

/// The leftmost index at which `needle` stands in `text`.
pub fn find(text: &[char], needle: &[char]) -> (found: Option<usize>)
    ensures
        match found {
            Some(i) => first_at(text@, needle@, i as int),
            None => !contains_text(text@, needle@),
        },
        match found {
            Some(i) => first_occurrence(text@, needle@) == Some(i as int),
            None => first_occurrence(text@, needle@) is None,
        },
{
    let found = find_from(text, needle, 0);
    proof {
        if let Some(i) = found {
            lemma_first_occurrence(text@, needle@, i as int);
        }
    }
    found
}

/// `n` in decimal digits, without leading zeros.
pub open spec fn decimal(n: nat) -> Seq<char>
    decreases n,
{
    if n < 10 {
        seq![(('0' as int) + n) as char]
    } else {
        decimal(n / 10).push((('0' as int) + n % 10) as char)
    }
}

/// One decimal digit.
fn digit_char(n: u64) -> (c: char)
    requires
        n < 10,
    ensures
        c == (('0' as int) + n) as char,
{
    match n {
        0 => '0',
        1 => '1',
        2 => '2',
        3 => '3',
        4 => '4',
        5 => '5',
        6 => '6',
        7 => '7',
        8 => '8',
        _ => '9',
    }
}

/// Writes `n` in decimal digits.
pub fn decimal_of(n: u64) -> (s: String)
    ensures
        s@ == decimal(n as nat),
    decreases n,
{
    if n < 10 {
        let mut s = String::new();
        s.push(digit_char(n));
        assert(s@ =~= decimal(n as nat));
        s
    } else {
        let mut s = decimal_of(n / 10);
        s.push(digit_char(n % 10));
        s
    }
}

/// Decimal digits are digits.
pub proof fn lemma_decimal_digits(n: nat, i: int)
    requires
        0 <= i < decimal(n).len(),
    ensures
        '0' <= decimal(n)[i] <= '9',
    decreases n,
{
    if n >= 10 && i < decimal(n).len() - 1 {
        lemma_decimal_digits(n / 10, i);
    }
}

/// Different numbers have different digits.
pub proof fn lemma_decimal_injective(a: nat, b: nat)
    requires
        decimal(a) == decimal(b),
    ensures
        a == b,
    decreases a,
{
    assert(decimal(a).last() == (('0' as int) + a % 10) as char);
    assert(decimal(b).last() == (('0' as int) + b % 10) as char);
    assert(a % 10 == b % 10);
    if a >= 10 && b >= 10 {
        assert(decimal(a).drop_last() =~= decimal(a / 10));
        assert(decimal(b).drop_last() =~= decimal(b / 10));
        lemma_decimal_injective(a / 10, b / 10);
    } else if a >= 10 {
        lemma_decimal_nonempty(a / 10);
    } else if b >= 10 {
        lemma_decimal_nonempty(b / 10);
    }
}

proof fn lemma_decimal_nonempty(n: nat)
    ensures
        decimal(n).len() > 0,
    decreases n,
{
    if n >= 10 {
        lemma_decimal_nonempty(n / 10);
    }
}

/// A text that may be left out, by its characters.
pub open spec fn optional_text(text: Option<String>) -> Option<Seq<char>> {
    match text {
        Some(t) => Some(t@),
        None => None,
    }
}

/// The number that decimal digits stand for.
pub open spec fn digits_value(digits: Seq<char>) -> int
    decreases digits.len(),
{
    if digits.len() == 0 {
        0
    } else {
        10 * digits_value(digits.drop_last()) + (digits.last() as u32 - 0x30)
    }
}

/// The decimal digits of a number stand for that number, and do not begin with a zero unless
/// it is the only one.
pub proof fn law_decimal_digits_stand_for_the_number(n: nat)
    ensures
        digits_value(decimal(n)) == n,
        decimal(n).len() > 0,
        forall|i: int| 0 <= i < decimal(n).len() ==> '0' <= #[trigger] decimal(n)[i] <= '9',
        n == 0 ==> decimal(n) == seq!['0'],
        n > 0 ==> decimal(n)[0] != '0',
    decreases n,
{
    let digits = decimal(n);
    lemma_decimal_nonempty(n);
    assert forall|i: int| 0 <= i < digits.len() implies '0' <= #[trigger] digits[i] <= '9' by {
        lemma_decimal_digits(n, i);
    }
    reveal_with_fuel(digits_value, 2);
    if n >= 10 {
        law_decimal_digits_stand_for_the_number(n / 10);
        assert(digits.drop_last() =~= decimal(n / 10));
        assert(digits.last() as u32 == 0x30 + n % 10);
        assert(digits[0] == decimal(n / 10)[0]);
    } else {
        assert(digits.drop_last() =~= Seq::<char>::empty());
        assert(digits.last() as u32 == 0x30 + n);
    }
}

/// A text stands in another one where the characters from there on are its characters.
pub proof fn law_text_stands_where_its_characters_do(text: Seq<char>, needle: Seq<char>, i: int)
    ensures
        occurs_at(text, needle, i) <==> 0 <= i && i + needle.len() <= text.len() && text.subrange(
            i,
            i + needle.len(),
        ) == needle,
{
    if 0 <= i && i + needle.len() <= text.len() {
        let part = text.subrange(i, i + needle.len());
        if occurs_at(text, needle, i) {
            assert forall|k: int| 0 <= k < needle.len() implies part[k] == needle[k] by {
                assert(text[i + k] == needle[k]);
            }
            assert(part =~= needle);
        }
        if part == needle {
            assert forall|k: int| 0 <= k < needle.len() implies #[trigger] text[i + k]
                == needle[k] by {
                assert(part[k] == text[i + k]);
            }
        }
    }
}

/// What is found is the leftmost place at which the text stands, and nothing is found exactly
/// where it stands nowhere.
pub proof fn law_leftmost_place_is_found(text: Seq<char>, needle: Seq<char>)
    ensures
        match first_occurrence(text, needle) {
            Some(i) => {
                &&& occurs_at(text, needle, i)
                &&& forall|j: int| 0 <= j < i ==> !#[trigger] occurs_at(text, needle, j)
            },
            None => forall|j: int| !#[trigger] occurs_at(text, needle, j),
        },
        contains_text(text, needle) <==> exists|j: int| #[trigger] occurs_at(text, needle, j),
{
    lemma_first_occurrence_is_first(text, needle);
}

/// A text that may be left out is there where it is, with its characters.
pub proof fn law_optional_text_is_there_or_not(text: Option<String>)
    ensures
        match text {
            Some(t) => optional_text(text) == Some(t@),
            None => optional_text(text) is None,
        },
{
}

} // verus!
