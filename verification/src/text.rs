//! Decimal numbers and separated lists in strings.

use vstd::prelude::*;

verus! {

/// Whether `c` is one of the ten decimal digits.
pub open spec fn is_digit(c: char) -> bool {
    '0' <= c <= '9'
}

/// Whether every character is a digit.
pub open spec fn all_digits(s: Seq<char>) -> bool {
    forall|i: int| 0 <= i < s.len() ==> is_digit(#[trigger] s[i])
}

/// The number that a string of digits stands for.
pub open spec fn number_of(s: Seq<char>) -> int
    decreases s.len(),
{
    if s.len() == 0 {
        0
    } else {
        number_of(s.drop_last()) * 10 + (s.last() as int - '0' as int)
    }
}

/// The digits of `n`, without leading zeros.
pub open spec fn decimal(n: nat) -> Seq<char>
    decreases n,
{
    let last = ('0' as int + n % 10) as char;
    if n < 10 {
        seq![last]
    } else {
        decimal(n / 10).push(last)
    }
}

/// The 16-bit number that a string stands for: digits, with a plus sign in
/// front of them or without.
pub open spec fn u16_of(s: Seq<char>) -> Option<u16> {
    let digits = if s.len() > 0 && s[0] == '+' {
        s.skip(1)
    } else {
        s
    };
    if digits.len() > 0 && all_digits(digits) && number_of(digits) <= u16::MAX {
        Some(number_of(digits) as u16)
    } else {
        None
    }
}

/// Where `c` first stands in `s`; the length of `s` where it does not.
pub open spec fn position_of(s: Seq<char>, c: char) -> nat
    decreases s.len(),
{
    if s.len() == 0 || s[0] == c {
        0
    } else {
        1 + position_of(s.skip(1), c)
    }
}

/// The parts of `s` between the separators. There is one more of them than
/// there are separators; parts may be empty.
pub open spec fn split(s: Seq<char>, separator: char) -> Seq<Seq<char>>
    decreases s.len(),
{
    if s.len() == 0 {
        seq![seq![]]
    } else {
        let before = split(s.drop_last(), separator);
        if s.last() == separator {
            before.push(seq![])
        } else {
            before.drop_last().push(before.last().push(s.last()))
        }
    }
}

/// The parts with a separator between each two.
pub open spec fn join(parts: Seq<Seq<char>>, separator: char) -> Seq<char>
    decreases parts.len(),
{
    if parts.len() == 0 {
        seq![]
    } else if parts.len() == 1 {
        parts[0]
    } else {
        join(parts.drop_last(), separator).push(separator) + parts.last()
    }
}

/// The strings as sequences of characters.
pub open spec fn texts(parts: Seq<&str>) -> Seq<Seq<char>> {
    parts.map_values(|part: &str| part@)
}

/// The characters of a string.
pub fn chars_of(s: &str) -> (r: Vec<char>)
    ensures
        r@ == s@,
{
    let mut chars: Vec<char> = Vec::new();
    for c in it: s.chars()
        invariant
            chars@ == s@.take(it.index()),
            it.seq() == s@,
    {
        chars.push(c);
    }
    assert(s@.take(s@.len() as int) =~= s@);
    chars
}

/// Reads a 16-bit number.
pub fn parse_u16(s: &str) -> (r: Option<u16>)
    ensures
        r == u16_of(s@),
{
    let chars = chars_of(s);
    let start: usize = if chars.len() > 0 && chars[0] == '+' {
        1
    } else {
        0
    };
    let ghost digits = s@.skip(start as int);
    assert(s@.skip(0) =~= s@);
    if start == chars.len() {
        return None;
    }
    let mut value: u32 = 0;
    for i in start..chars.len()
        invariant
            start <= chars@.len(),
            chars@ == s@,
            digits == s@.skip(start as int),
            all_digits(digits.take(i - start)),
            value == number_of(digits.take(i - start)),
            value <= u16::MAX,
            u16_of(s@) == (if digits.len() > 0 && all_digits(digits) && number_of(digits)
                <= u16::MAX {
                Some(number_of(digits) as u16)
            } else {
                None
            }),
    {
        let c = chars[i];
        assert(c == digits[i - start]);
        if c < '0' || '9' < c {
            return None;
        }
        assert(digits.take(i + 1 - start).drop_last() =~= digits.take(i - start));
        value = value * 10 + (c as u32 - '0' as u32);
        if value > u16::MAX as u32 {
            proof {
                if all_digits(digits) {
                    lemma_number_grows(digits, i + 1 - start);
                }
            }
            return None;
        }
    }
    assert(digits.take(chars.len() - start) =~= digits);
    Some(value as u16)
}

/// Finds the first `c`.
pub fn find_char(s: &str, c: char) -> (r: usize)
    ensures
        r == position_of(s@, c),
        r <= s@.len(),
{
    let chars = chars_of(s);
    assert(s@.skip(0) =~= s@);
    for i in 0..chars.len()
        invariant
            chars@ == s@,
            position_of(s@, c) == i + position_of(s@.skip(i as int), c),
    {
        assert(s@.skip(i as int).skip(1) =~= s@.skip(i + 1));
        if chars[i] == c {
            return i;
        }
    }
    chars.len()
}

/// Splits a string at each separator.
pub fn split_str<'a>(s: &'a str, separator: char) -> (r: Vec<&'a str>)
    ensures
        texts(r@) == split(s@, separator),
{
    let chars = chars_of(s);
    let mut parts: Vec<&'a str> = Vec::new();
    let mut start: usize = 0;
    proof {
        assert(s@.subrange(0, 0) =~= seq![]);
        assert(split(s@.take(0), separator) =~= seq![seq![]]);
        assert(texts(parts@).push(s@.subrange(0, 0)) =~= split(s@.take(0), separator));
    }
    for i in 0..chars.len()
        invariant
            chars@ == s@,
            start <= i,
            texts(parts@).push(s@.subrange(start as int, i as int)) == split(
                s@.take(i as int),
                separator,
            ),
    {
        let ghost before = split(s@.take(i as int), separator);
        assert(s@.take(i + 1).drop_last() =~= s@.take(i as int));
        assert(before.drop_last() =~= texts(parts@));
        if chars[i] == separator {
            let ghost earlier = parts@;
            parts.push(s.substring_char(start, i));
            start = i + 1;
            assert(texts(parts@) =~= texts(earlier).push(parts@.last()@));
            assert(s@.subrange(i + 1, i + 1) =~= seq![]);
        } else {
            assert(s@.subrange(start as int, i + 1) =~= s@.subrange(start as int, i as int).push(
                s@[i as int],
            ));
        }
    }
    let ghost earlier = parts@;
    parts.push(s.substring_char(start, chars.len()));
    proof {
        assert(texts(parts@) =~= texts(earlier).push(parts@.last()@));
        assert(s@.take(s@.len() as int) =~= s@);
    }
    parts
}

/// More digits do not make a number smaller.
proof fn lemma_number_grows(s: Seq<char>, k: int)
    requires
        all_digits(s),
        0 <= k <= s.len(),
    ensures
        0 <= number_of(s.take(k)) <= number_of(s),
    decreases s.len(),
{
    if s.len() > 0 {
        if k == s.len() {
            assert(s.take(k) =~= s);
            lemma_number_grows(s.drop_last(), k - 1);
        } else {
            assert(s.drop_last().take(k) =~= s.take(k));
            lemma_number_grows(s.drop_last(), k);
        }
        assert(is_digit(s.last()));
    }
}

/// The digits of a number stand for it.
pub proof fn lemma_decimal(n: nat)
    ensures
        all_digits(decimal(n)),
        number_of(decimal(n)) == n,
        decimal(n).len() >= 1,
        n > 0 ==> decimal(n)[0] != '0',
        n < 10 ==> decimal(n).len() == 1,
        10 <= n < 100 ==> decimal(n).len() == 2,
        100 <= n < 1000 ==> decimal(n).len() == 3,
    decreases n,
{
    let s = decimal(n);
    if n < 10 {
        assert(s.drop_last() =~= seq![]);
        reveal_with_fuel(number_of, 2);
    } else {
        lemma_decimal(n / 10);
        assert(s.drop_last() =~= decimal(n / 10));
    }
}

/// A character that does not stand in `a` is found behind it.
pub proof fn lemma_position_behind(a: Seq<char>, c: char, b: Seq<char>)
    requires
        !a.contains(c),
    ensures
        position_of(a.push(c) + b, c) == a.len(),
        position_of(a, c) == a.len(),
    decreases a.len(),
{
    if a.len() > 0 {
        assert(a.contains(a[0]));
        assert((a.push(c) + b).skip(1) =~= a.skip(1).push(c) + b);
        assert forall|x: char| a.skip(1).contains(x) implies a.contains(x) by {
            let i = choose|i: int| 0 <= i < a.skip(1).len() && a.skip(1)[i] == x;
            assert(a[i + 1] == x);
        }
        lemma_position_behind(a.skip(1), c, b);
    }
}

/// Splitting goes on from what was split before.
proof fn lemma_split_append(a: Seq<char>, b: Seq<char>, separator: char)
    requires
        !b.contains(separator),
    ensures
        split(a, separator).len() > 0,
        split(a + b, separator) == split(a, separator).drop_last().push(
            split(a, separator).last() + b,
        ),
    decreases b.len(),
{
    lemma_split_not_empty(a, separator);
    let parts = split(a, separator);
    if b.len() == 0 {
        assert(a + b =~= a);
        assert(parts.last() + b =~= parts.last());
        assert(parts.drop_last().push(parts.last()) =~= parts);
    } else {
        assert((a + b).drop_last() =~= a + b.drop_last());
        assert forall|x: char| b.drop_last().contains(x) implies b.contains(x) by {
            let i = choose|i: int| 0 <= i < b.drop_last().len() && b.drop_last()[i] == x;
            assert(b[i] == x);
        }
        assert(b.contains(b.last()));
        lemma_split_append(a, b.drop_last(), separator);
        let before = split(a + b.drop_last(), separator);
        assert(before.drop_last() =~= parts.drop_last());
        assert(before.last().push(b.last()) =~= parts.last() + b);
    }
}

/// There is always a part.
pub proof fn lemma_split_not_empty(s: Seq<char>, separator: char)
    ensures
        split(s, separator).len() > 0,
    decreases s.len(),
{
    if s.len() > 0 {
        lemma_split_not_empty(s.drop_last(), separator);
    }
}

/// Splitting undoes joining, where no part holds a separator.
pub proof fn lemma_split_join(parts: Seq<Seq<char>>, separator: char)
    requires
        parts.len() > 0,
        forall|i: int| 0 <= i < parts.len() ==> !(#[trigger] parts[i]).contains(separator),
    ensures
        split(join(parts, separator), separator) == parts,
    decreases parts.len(),
{
    let last = parts.last();
    if parts.len() == 1 {
        lemma_split_append(seq![], last, separator);
        assert(Seq::<char>::empty() + last =~= last);
        assert(split(Seq::<char>::empty(), separator) =~= seq![Seq::<char>::empty()]);
        assert(split(last, separator) =~= parts);
    } else {
        lemma_split_join(parts.drop_last(), separator);
        let head = join(parts.drop_last(), separator);
        assert(head.push(separator).drop_last() =~= head);
        assert(split(head.push(separator), separator) =~= parts.drop_last().push(seq![]));
        lemma_split_append(head.push(separator), last, separator);
        assert(Seq::<char>::empty() + last =~= last);
        assert(split(join(parts, separator), separator) =~= parts);
    }
}

/// Joining undoes splitting, and no part holds a separator.
pub proof fn lemma_join_split(s: Seq<char>, separator: char)
    ensures
        join(split(s, separator), separator) == s,
        forall|i: int|
            0 <= i < split(s, separator).len() ==> !(#[trigger] split(s, separator)[i]).contains(
                separator,
            ),
    decreases s.len(),
{
    let parts = split(s, separator);
    if s.len() == 0 {
        assert(join(parts, separator) =~= s);
    } else {
        let front = s.drop_last();
        let before = split(front, separator);
        lemma_join_split(front, separator);
        lemma_split_not_empty(front, separator);
        if s.last() == separator {
            assert(parts.drop_last() =~= before);
            assert(join(parts, separator) =~= s);
        } else {
            assert(parts.drop_last() =~= before.drop_last());
            let grown = before.last().push(s.last());
            assert(parts.last() == grown);
            assert(!grown.contains(separator)) by {
                assert(!before[before.len() - 1].contains(separator));
                if grown.contains(separator) {
                    let i = choose|i: int| 0 <= i < grown.len() && grown[i] == separator;
                    assert(before.last()[i] == separator);
                }
            }
            assert forall|i: int| 0 <= i < parts.len() implies !(#[trigger] parts[i]).contains(
                separator,
            ) by {
                if i < parts.len() - 1 {
                    assert(parts[i] == before[i]);
                }
            }
            assert(before.drop_last().push(before.last()) =~= before);
            if before.len() > 1 {
                let head = join(before.drop_last(), separator).push(separator);
                assert(join(parts, separator) == head + grown);
                assert(head + grown =~= (head + before.last()).push(s.last()));
            }
            assert(front.push(s.last()) =~= s);
        }
    }
}


/// What a number of 16 bits is. One digit stands for itself; a further digit
/// makes ten times the number and the digit of it, as long as that fits; a plus
/// sign in front changes nothing; and no other string is a number.
pub proof fn law_number_by_digits(s: Seq<char>, c: char)
    ensures
        u16_of(seq![]) is None,
        u16_of(seq!['+']) is None,
        '0' <= c <= '9' ==> u16_of(seq![c]) == Some((c as int - 48) as u16),
        !('0' <= c <= '9') ==> u16_of(seq![c]) is None,
        s.len() > 0 && s[0] == '+' ==> u16_of(seq!['+'] + s) is None,
        s.len() > 0 && s[0] != '+' ==> u16_of(seq!['+'] + s) == u16_of(s),
        s.len() > 0 && s != seq!['+'] ==> u16_of(s.push(c)) == (match u16_of(s) {
            Some(n) => if '0' <= c <= '9' && n * 10 + (c as int - 48) <= 65535 {
                Some((n * 10 + (c as int - 48)) as u16)
            } else {
                None
            },
            None => None,
        }),
{
    let one = seq![c];
    assert(one.drop_last() =~= seq![]);
    reveal_with_fuel(number_of, 2);
    assert(all_digits(one) <==> is_digit(c)) by {
        assert(one[0] == c);
    }
    assert(one.skip(1) =~= seq![]);
    assert(seq!['+'].skip(1) =~= seq![]);
    let signed = seq!['+'] + s;
    assert(signed.skip(1) =~= s);
    if s.len() > 0 && s[0] == '+' {
        assert(!is_digit(s[0]));
    }
    if s.len() > 0 && s != seq!['+'] {
        let digits = if s[0] == '+' {
            s.skip(1)
        } else {
            s
        };
        if s[0] == '+' && s.len() == 1 {
            assert(s =~= seq!['+']);
        }
        let more = digits.push(c);
        assert(s[0] == '+' ==> s.push(c).skip(1) =~= more);
        assert(more.drop_last() =~= digits);
        assert(number_of(more) == number_of(digits) * 10 + (c as int - '0' as int));
        assert(all_digits(more) <==> all_digits(digits) && is_digit(c)) by {
            assert(more[digits.len() as int] == c);
            assert forall|i: int| 0 <= i < digits.len() implies digits[i] == #[trigger] more[i] by {}
            if all_digits(more) {
                assert forall|i: int| 0 <= i < digits.len() implies is_digit(
                    #[trigger] digits[i],
                ) by {
                    assert(is_digit(more[i]));
                }
            }
        }
        if all_digits(digits) {
            lemma_number_grows(digits, 0);
        }
    }
}

/// The position of a character is that of its first occurrence, or the end of
/// the string.
pub proof fn law_first_position(s: Seq<char>, c: char)
    ensures
        position_of(s, c) <= s.len(),
        position_of(s, c) < s.len() ==> s[position_of(s, c) as int] == c,
        forall|i: int| 0 <= i < position_of(s, c) ==> #[trigger] s[i] != c,
    decreases s.len(),
{
    if s.len() > 0 && s[0] != c {
        law_first_position(s.skip(1), c);
        assert forall|i: int| 0 <= i < position_of(s, c) implies #[trigger] s[i] != c by {
            if i > 0 {
                assert(s.skip(1)[i - 1] == s[i]);
            }
        }
    }
}

/// A string without a separator is one part, and a separator with such a string
/// behind it adds that string as a part.
pub proof fn law_split_by_parts(a: Seq<char>, b: Seq<char>, separator: char)
    requires
        !b.contains(separator),
    ensures
        split(b, separator) == seq![b],
        split(a.push(separator) + b, separator) == split(a, separator).push(b),
{
    let nothing = Seq::<char>::empty();
    lemma_split_append(nothing, b, separator);
    assert(nothing + b =~= b);
    assert(split(nothing, separator) =~= seq![nothing]);
    assert(split(b, separator) =~= seq![b]);
    lemma_split_append(a.push(separator), b, separator);
    assert(a.push(separator).drop_last() =~= a);
    assert(split(a.push(separator), separator) == split(a, separator).push(nothing));
    assert(split(a.push(separator) + b, separator) =~= split(a, separator).push(b));
}

/// The strings stand for their own characters, in order.
pub proof fn law_texts(parts: Seq<&str>)
    ensures
        texts(parts).len() == parts.len(),
        forall|i: int| 0 <= i < parts.len() ==> #[trigger] texts(parts)[i] == parts[i]@,
{
}

} // verus!
