//! Character-level helpers: slicing, trimming, removing a fragment, and
//! reading and writing decimal numbers.

use vstd::prelude::*;

verus! {

/// `String::push` appends one character to the end of the string. Not
/// proved, but taken from the standard library's documentation.
pub assume_specification[ String::push ](s: &mut String, ch: char)
    ensures
        final(s)@ == old(s)@.push(ch),
;

/// Whether `c` has the Unicode property `White_Space`: the controls from
/// tab to carriage return, the space, next line, the no-break spaces, the
/// Ogham space mark, the spaces of fixed width, the line and paragraph
/// separators, the medium mathematical space and the ideographic space.
pub open spec fn is_whitespace(c: char) -> bool {
    let code = c as u32;
    ||| 0x0009 <= code <= 0x000D
    ||| code == 0x0020
    ||| code == 0x0085
    ||| code == 0x00A0
    ||| code == 0x1680
    ||| 0x2000 <= code <= 0x200A
    ||| code == 0x2028
    ||| code == 0x2029
    ||| code == 0x202F
    ||| code == 0x205F
    ||| code == 0x3000
}

/// `char::is_whitespace` tells whether the character has the property
/// `White_Space`. Not proved, but taken from the standard library's
/// documentation.
pub assume_specification[ char::is_whitespace ](c: char) -> (b: bool)
    ensures
        b == is_whitespace(c),
;

/// The characters of `s`, in order.
pub fn to_chars(s: &str) -> (chars: Vec<char>)
    ensures
        chars@ == s@,
{
    let mut chars: Vec<char> = Vec::new();
    for c in it: s.chars()
        invariant
            it.seq() == s@,
            chars@ == s@.take(it.index() as int),
    {
        chars.push(c);
    }
    chars
}

/// The text made of `chars[start..end]`.
pub fn slice_to_string(chars: &Vec<char>, start: usize, end: usize) -> (s: String)
    requires
        start <= end <= chars.len(),
    ensures
        s@ == chars@.subrange(start as int, end as int),
{
    let mut s = String::new();
    let mut i: usize = start;
    while i < end
        invariant
            start <= i <= end <= chars.len(),
            s@ == chars@.subrange(start as int, i as int),
        decreases end - i,
    {
        s.push(chars[i]);
        i += 1;
        assert(s@ =~= chars@.subrange(start as int, i as int));
    }
    s
}

/// `s` without its leading white space.
pub open spec fn trim_start(s: Seq<char>) -> Seq<char>
    decreases s.len(),
{
    if s.len() > 0 && is_whitespace(s[0]) {
        trim_start(s.skip(1))
    } else {
        s
    }
}

/// `s` without its trailing white space.
pub open spec fn trim_end(s: Seq<char>) -> Seq<char>
    decreases s.len(),
{
    if s.len() > 0 && is_whitespace(s.last()) {
        trim_end(s.drop_last())
    } else {
        s
    }
}

/// `s` without leading and trailing white space.
pub open spec fn trimmed(s: Seq<char>) -> Seq<char> {
    trim_end(trim_start(s))
}

/// Removes leading and trailing white space.
pub fn trim(s: &str) -> (t: String)
    ensures
        t@ == trimmed(s@),
{
    let chars = to_chars(s);
    let mut start: usize = 0;
    assert(chars@.skip(0) =~= chars@);
    while start < chars.len() && chars[start].is_whitespace()
        invariant
            start <= chars.len(),
            trim_start(chars@) == trim_start(chars@.skip(start as int)),
        decreases chars.len() - start,
    {
        assert(chars@.skip(start as int).skip(1) =~= chars@.skip(start + 1));
        start += 1;
    }
    let mut end: usize = chars.len();
    assert(chars@.skip(start as int) =~= chars@.subrange(start as int, end as int));
    while end > start && chars[end - 1].is_whitespace()
        invariant
            start <= end <= chars.len(),
            trim_start(chars@) == chars@.skip(start as int),
            trimmed(chars@) == trim_end(chars@.subrange(start as int, end as int)),
        decreases end,
    {
        assert(chars@.subrange(start as int, end as int).drop_last() =~= chars@.subrange(
            start as int,
            end - 1,
        ));
        end -= 1;
    }
    slice_to_string(&chars, start, end)
}

/// `s` with every occurrence of `fragment` taken out, found from left to
/// right without overlap; what remains is not searched again. An empty
/// fragment removes nothing.
pub open spec fn without(s: Seq<char>, fragment: Seq<char>) -> Seq<char>
    decreases s.len(),
{
    if fragment.len() == 0 || s.len() < fragment.len() {
        s
    } else if s.take(fragment.len() as int) == fragment {
        without(s.skip(fragment.len() as int), fragment)
    } else {
        seq![s[0]] + without(s.skip(1), fragment)
    }
}

/// Whether `fragment` stands in `chars` at position `at`.
fn occurs_at(chars: &Vec<char>, at: usize, fragment: &Vec<char>) -> (b: bool)
    requires
        at <= chars.len(),
    ensures
        b == (at + fragment.len() <= chars.len() && chars@.subrange(
            at as int,
            at + fragment.len(),
        ) == fragment@),
{
    if fragment.len() > chars.len() - at {
        return false;
    }
    let mut j: usize = 0;
    while j < fragment.len()
        invariant
            j <= fragment.len(),
            at + fragment.len() <= chars.len(),
            chars@.subrange(at as int, at + j) == fragment@.take(j as int),
        decreases fragment.len() - j,
    {
        if chars[at + j] != fragment[j] {
            proof {
                let whole = chars@.subrange(at as int, at + fragment.len());
                assert(whole[j as int] != fragment@[j as int]);
            }
            return false;
        }
        j += 1;
        assert(chars@.subrange(at as int, at + j) =~= fragment@.take(j as int)) by {
            assert(chars@.subrange(at as int, at + j).drop_last() =~= chars@.subrange(
                at as int,
                at + j - 1,
            ));
            assert(fragment@.take(j as int).drop_last() =~= fragment@.take(j - 1));
        }
    }
    assert(fragment@.take(j as int) =~= fragment@);
    true
}

/// Whether `s` starts with `prefix`.
pub open spec fn starts_with(s: Seq<char>, prefix: Seq<char>) -> bool {
    prefix.len() <= s.len() && s.subrange(0, prefix.len() as int) == prefix
}

/// `s` without `prefix` at its start, as often as it stands there. An empty
/// prefix removes nothing.
pub open spec fn without_leading(s: Seq<char>, prefix: Seq<char>) -> Seq<char>
    decreases s.len(),
{
    if prefix.len() > 0 && starts_with(s, prefix) {
        without_leading(s.skip(prefix.len() as int), prefix)
    } else {
        s
    }
}

/// What is left when every leading `prefix` is gone does not start with it.
pub proof fn lemma_without_leading(s: Seq<char>, prefix: Seq<char>)
    requires
        prefix.len() > 0,
    ensures
        !starts_with(without_leading(s, prefix), prefix),
    decreases s.len(),
{
    if starts_with(s, prefix) {
        lemma_without_leading(s.skip(prefix.len() as int), prefix);
    }
}

/// Takes `prefix` off the start of `s`, as often as it stands there.
pub fn strip_leading(s: &str, prefix: &str) -> (t: String)
    ensures
        t@ == without_leading(s@, prefix@),
{
    let chars = to_chars(s);
    let head = to_chars(prefix);
    let mut start: usize = 0;
    assert(chars@.skip(0) =~= chars@);
    while head.len() > 0 && occurs_at(&chars, start, &head)
        invariant
            start <= chars.len(),
            without_leading(chars@, head@) == without_leading(chars@.skip(start as int), head@),
        decreases chars.len() - start,
    {
        let ghost rest = chars@.skip(start as int);
        assert(rest.subrange(0, head.len() as int) =~= chars@.subrange(
            start as int,
            start + head.len(),
        ));
        assert(rest.skip(head.len() as int) =~= chars@.skip(start + head.len()));
        start += head.len();
    }
    proof {
        let rest = chars@.skip(start as int);
        if head.len() > 0 && head.len() <= rest.len() {
            assert(rest.subrange(0, head.len() as int) =~= chars@.subrange(
                start as int,
                start + head.len(),
            ));
        }
        assert(rest =~= chars@.subrange(start as int, chars.len() as int));
    }
    slice_to_string(&chars, start, chars.len())
}

/// Whether `s` ends with `suffix`.
pub open spec fn ends_with(s: Seq<char>, suffix: Seq<char>) -> bool {
    suffix.len() <= s.len() && s.subrange(s.len() - suffix.len(), s.len() as int) == suffix
}

/// Whether `s` ends with `suffix`.
pub fn has_suffix(s: &str, suffix: &str) -> (b: bool)
    ensures
        b == ends_with(s@, suffix@),
{
    let chars = to_chars(s);
    let tail = to_chars(suffix);
    if tail.len() > chars.len() {
        return false;
    }
    occurs_at(&chars, chars.len() - tail.len(), &tail)
}

/// Takes every occurrence of `fragment` out of `s`.
pub fn remove_all(s: &str, fragment: &str) -> (t: String)
    ensures
        t@ == without(s@, fragment@),
{
    let chars = to_chars(s);
    let frag = to_chars(fragment);
    let mut t = String::new();
    let mut i: usize = 0;
    assert(chars@.skip(0) =~= chars@);
    assert(t@ + chars@ =~= chars@);
    while i < chars.len()
        invariant
            i <= chars.len(),
            chars@ == s@,
            frag@ == fragment@,
            t@ + without(chars@.skip(i as int), frag@) == without(chars@, frag@),
        decreases chars.len() - i,
    {
        let ghost rest = chars@.skip(i as int);
        if frag.len() > 0 && occurs_at(&chars, i, &frag) {
            assert(rest.take(frag.len() as int) =~= chars@.subrange(i as int, i + frag.len()));
            assert(rest.skip(frag.len() as int) =~= chars@.skip(i + frag.len()));
            i += frag.len();
        } else {
            proof {
                if frag.len() > 0 && rest.len() >= frag.len() {
                    assert(rest.take(frag.len() as int) =~= chars@.subrange(
                        i as int,
                        i + frag.len(),
                    ));
                    assert(rest.skip(1) =~= chars@.skip(i + 1));
                    assert(without(rest, frag@) == seq![rest[0]] + without(rest.skip(1), frag@));
                    assert(t@.push(chars@[i as int]) + without(chars@.skip(i + 1), frag@) =~= t@
                        + without(rest, frag@));
                } else {
                    assert(without(rest, frag@) == rest);
                    lemma_without_short(chars@.skip(i + 1), frag@);
                    assert(t@.push(chars@[i as int]) + chars@.skip(i + 1) =~= t@ + rest);
                }
            }
            t.push(chars[i]);
            i += 1;
        }
    }
    assert(chars@.skip(i as int) =~= Seq::<char>::empty());
    assert(t@ + Seq::<char>::empty() =~= t@);
    t
}

/// Nothing is removed where the fragment is empty or longer than the text.
pub proof fn lemma_without_short(s: Seq<char>, fragment: Seq<char>)
    requires
        fragment.len() == 0 || s.len() < fragment.len(),
    ensures
        without(s, fragment) == s,
{
}

/// Whether `c` is one of the ten ASCII digits.
pub open spec fn is_digit(c: char) -> bool {
    '0' <= c <= '9'
}

/// The number that the digit `c` stands for.
pub open spec fn digit_value(c: char) -> nat {
    (c as u32 - '0' as u32) as nat
}

/// The number that the digits of `s` spell in base ten (0 for no digits).
pub open spec fn decimal_value(s: Seq<char>) -> nat
    decreases s.len(),
{
    if s.len() == 0 {
        0
    } else {
        decimal_value(s.drop_last()) * 10 + digit_value(s.last())
    }
}

/// Whether `s` is a non-empty run of ASCII digits.
pub open spec fn is_numeral(s: Seq<char>) -> bool {
    s.len() > 0 && forall|i: int| 0 <= i < s.len() ==> is_digit(#[trigger] s[i])
}

/// The number that `s` spells, where `s` is a numeral that fits a `usize`.
pub open spec fn parsed(s: Seq<char>) -> Option<usize> {
    if is_numeral(s) && decimal_value(s) <= usize::MAX {
        Some(decimal_value(s) as usize)
    } else {
        None
    }
}

/// A longer numeral never spells less than one of its prefixes.
pub proof fn lemma_decimal_value_grows(s: Seq<char>, n: int)
    requires
        0 <= n <= s.len(),
    ensures
        decimal_value(s.take(n)) <= decimal_value(s),
    decreases s.len() - n,
{
    if n < s.len() {
        lemma_decimal_value_grows(s, n + 1);
        assert(s.take(n + 1).drop_last() =~= s.take(n));
    } else {
        assert(s.take(n) =~= s);
    }
}

/// Reads an unsigned decimal number: `Some` exactly for a non-empty run of
/// ASCII digits whose value fits a `usize`.
pub fn parse_number(s: &str) -> (n: Option<usize>)
    ensures
        n == parsed(s@),
{
    let chars = to_chars(s);
    if chars.len() == 0 {
        return None;
    }
    let mut value: usize = 0;
    let mut i: usize = 0;
    while i < chars.len()
        invariant
            i <= chars.len(),
            chars@ == s@,
            value == decimal_value(chars@.take(i as int)),
            forall|k: int| 0 <= k < i ==> is_digit(#[trigger] chars@[k]),
        decreases chars.len() - i,
    {
        let c = chars[i];
        if !(c >= '0' && c <= '9') {
            return None;
        }
        let digit: usize = (c as u32 - '0' as u32) as usize;
        assert(chars@.take(i + 1).drop_last() =~= chars@.take(i as int));
        let ghost next = decimal_value(chars@.take(i + 1));
        assert(next == value * 10 + digit);
        let scaled = match value.checked_mul(10) {
            Some(v) => v,
            None => {
                proof {
                    lemma_decimal_value_grows(chars@, i + 1);
                }
                return None;
            },
        };
        value = match scaled.checked_add(digit) {
            Some(v) => v,
            None => {
                proof {
                    lemma_decimal_value_grows(chars@, i + 1);
                }
                return None;
            },
        };
        i += 1;
    }
    assert(chars@.take(i as int) =~= chars@);
    Some(value)
}

/// The character for a digit below ten.
pub open spec fn digit_char(d: nat) -> char {
    if d == 0 {
        '0'
    } else if d == 1 {
        '1'
    } else if d == 2 {
        '2'
    } else if d == 3 {
        '3'
    } else if d == 4 {
        '4'
    } else if d == 5 {
        '5'
    } else if d == 6 {
        '6'
    } else if d == 7 {
        '7'
    } else if d == 8 {
        '8'
    } else {
        '9'
    }
}

/// The decimal numeral of `n`, without leading zeros.
pub open spec fn decimal_digits(n: nat) -> Seq<char>
    decreases n,
{
    if n < 10 {
        seq![digit_char(n)]
    } else {
        decimal_digits(n / 10).push(digit_char(n % 10))
    }
}

fn digit_to_char(d: usize) -> (c: char)
    requires
        d < 10,
    ensures
        c == digit_char(d as nat),
{
    if d == 0 {
        '0'
    } else if d == 1 {
        '1'
    } else if d == 2 {
        '2'
    } else if d == 3 {
        '3'
    } else if d == 4 {
        '4'
    } else if d == 5 {
        '5'
    } else if d == 6 {
        '6'
    } else if d == 7 {
        '7'
    } else if d == 8 {
        '8'
    } else {
        '9'
    }
}

/// Writes `n` in base ten.
pub fn decimal_string(n: usize) -> (s: String)
    ensures
        s@ == decimal_digits(n as nat),
{
    let mut low: Vec<char> = Vec::new();
    let mut rest: usize = n;
    while rest >= 10
        invariant
            decimal_digits(n as nat) == decimal_digits(rest as nat) + low@.reverse(),
        decreases rest,
    {
        let ghost before = low@;
        low.push(digit_to_char(rest % 10));
        proof {
            assert(low@.reverse() =~= seq![digit_char((rest % 10) as nat)] + before.reverse());
            assert(decimal_digits(rest as nat) + before.reverse() =~= decimal_digits(
                (rest / 10) as nat,
            ) + low@.reverse());
        }
        rest = rest / 10;
    }
    let mut s = String::new();
    s.push(digit_to_char(rest));
    let mut i: usize = low.len();
    while i > 0
        invariant
            i <= low.len(),
            s@ + low@.take(i as int).reverse() == decimal_digits(n as nat),
        decreases i,
    {
        i -= 1;
        proof {
            let head = low@.take(i + 1);
            assert(head.reverse() =~= seq![low@[i as int]] + low@.take(i as int).reverse());
            assert(s@.push(low@[i as int]) + low@.take(i as int).reverse() =~= s@
                + head.reverse());
        }
        s.push(low[i]);
    }
    assert(low@.take(0).reverse() =~= Seq::<char>::empty());
    assert(s@ + Seq::<char>::empty() =~= s@);
    s
}

/// A numeral written by `decimal_string` reads back as the same number.
pub proof fn lemma_decimal_round_trip(n: usize)
    ensures
        parsed(decimal_digits(n as nat)) == Some(n),
{
    lemma_decimal_digits_value(n as nat);
}

/// Each digit's character is a digit and stands for that digit.
pub proof fn lemma_digit_char_value(d: nat)
    requires
        d < 10,
    ensures
        is_digit(digit_char(d)),
        digit_value(digit_char(d)) == d,
{
}

/// The digits of `n` form a numeral whose value is `n`.
pub proof fn lemma_decimal_digits_value(n: nat)
    ensures
        is_numeral(decimal_digits(n)),
        decimal_value(decimal_digits(n)) == n,
    decreases n,
{
    lemma_digit_char_value(n % 10);
    if n < 10 {
        assert(decimal_digits(n).drop_last() =~= Seq::<char>::empty());
        assert(decimal_value(decimal_digits(n).drop_last()) == 0);
    } else {
        lemma_decimal_digits_value(n / 10);
        assert(decimal_digits(n).drop_last() =~= decimal_digits(n / 10));
    }
}

} // verus!
