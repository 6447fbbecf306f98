//! Reading of small pieces of text: splitting, prefixes and numbers.
use vstd::prelude::*;

verus! {

/// `String::push`: appends one character.
pub assume_specification[ String::push ](text: &mut String, c: char)
    ensures
        final(text)@ == old(text)@.push(c),
;

/// The pieces of `s` between the occurrences of `sep`; there is always one
/// more piece than there are separators.
pub open spec fn split_on(s: Seq<char>, sep: char) -> Seq<Seq<char>>
    decreases s.len(),
{
    if s.len() == 0 {
        seq![Seq::<char>::empty()]
    } else {
        let before = split_on(s.drop_last(), sep);
        if s.last() == sep {
            before.push(Seq::<char>::empty())
        } else {
            before.drop_last().push(before.last().push(s.last()))
        }
    }
}

/// What follows `prefix` in `s`, if `s` starts with it.
pub open spec fn after_prefix(s: Seq<char>, prefix: Seq<char>) -> Option<Seq<char>> {
    if prefix.len() <= s.len() && s.take(prefix.len() as int) == prefix {
        Some(s.skip(prefix.len() as int))
    } else {
        None
    }
}

/// The value of a decimal digit.
pub open spec fn digit_value(c: char) -> Option<nat> {
    if '0' <= c <= '9' {
        Some((c as int - '0' as int) as nat)
    } else {
        None
    }
}

/// The number that a sequence of decimal digits stands for.
pub open spec fn digits_value(s: Seq<char>) -> Option<nat>
    decreases s.len(),
{
    if s.len() == 0 {
        Some(0)
    } else {
        match (digits_value(s.drop_last()), digit_value(s.last())) {
            (Some(high), Some(low)) => Some(10 * high + low),
            _ => None,
        }
    }
}

/// `s` without a leading plus sign.
pub open spec fn without_plus(s: Seq<char>) -> Seq<char> {
    if s.len() > 0 && s[0] == '+' {
        s.skip(1)
    } else {
        s
    }
}

/// The 32-bit number that `s` stands for: at least one decimal digit, after an
/// optional plus sign.
pub open spec fn u32_value(s: Seq<char>) -> Option<u32> {
    let digits = without_plus(s);
    if digits.len() == 0 {
        None
    } else {
        match digits_value(digits) {
            Some(value) => if value <= u32::MAX {
                Some(value as u32)
            } else {
                None
            },
            None => None,
        }
    }
}

/// The characters of a string.
pub fn chars_of(s: &str) -> (chars: Vec<char>)
    ensures
        chars@ == s@,
{
    let mut chars: Vec<char> = Vec::new();
    for c in it: s.chars()
        invariant
            it.seq() == s@,
            chars@ == s@.take(it.index() as int),
    {
        assert(s@.take(it.index() as int).push(c) =~= s@.take(it.index() + 1));
        chars.push(c);
    }
    assert(s@.take(s@.len() as int) =~= s@);
    chars
}

/// The string of some characters.
pub fn string_of(chars: &[char]) -> (s: String)
    ensures
        s@ == chars@,
{
    let mut s: String = String::new();
    for i in 0..chars.len()
        invariant
            s@ == chars@.take(i as int),
    {
        assert(chars@.take(i as int).push(chars@[i as int]) =~= chars@.take(i + 1));
        s.push(chars[i]);
    }
    assert(chars@.take(chars@.len() as int) =~= chars@);
    s
}

/// The characters of each piece.
pub open spec fn piece_chars(pieces: Seq<Vec<char>>) -> Seq<Seq<char>> {
    Seq::new(pieces.len(), |i: int| pieces[i]@)
}

/// The pieces of `chars` between the occurrences of `sep`.
pub fn split(chars: &[char], sep: char) -> (pieces: Vec<Vec<char>>)
    ensures
        piece_chars(pieces@) == split_on(chars@, sep),
        pieces@.len() > 0,
{
    let mut pieces: Vec<Vec<char>> = Vec::new();
    let mut current: Vec<char> = Vec::new();
    assert(piece_chars(pieces@).push(current@) =~= split_on(chars@.take(0), sep));
    for i in 0..chars.len()
        invariant
            piece_chars(pieces@).push(current@) == split_on(chars@.take(i as int), sep),
    {
        let c: char = chars[i];
        let ghost before = piece_chars(pieces@).push(current@);
        assert(chars@.take(i + 1).drop_last() =~= chars@.take(i as int));
        assert(before.drop_last() =~= piece_chars(pieces@));
        assert(before.last() == current@);
        if c == sep {
            let finished: Vec<char> = current;
            current = Vec::new();
            pieces.push(finished);
            assert(piece_chars(pieces@) =~= before);
        } else {
            current.push(c);
        }
        assert(piece_chars(pieces@).push(current@) =~= split_on(chars@.take(i + 1), sep));
    }
    assert(chars@.take(chars@.len() as int) =~= chars@);
    let ghost before = piece_chars(pieces@).push(current@);
    pieces.push(current);
    assert(piece_chars(pieces@) =~= before);
    pieces
}

/// What follows `prefix` in `chars`, if they start with it.
pub fn strip_prefix(chars: &[char], prefix: &str) -> (rest: Option<Vec<char>>)
    ensures
        match rest {
            Some(found) => after_prefix(chars@, prefix@) == Some(found@),
            None => after_prefix(chars@, prefix@) is None,
        },
{
    let wanted: Vec<char> = chars_of(prefix);
    if wanted.len() > chars.len() {
        return None;
    }
    for i in 0..wanted.len()
        invariant
            wanted@ == prefix@,
            wanted@.len() <= chars@.len(),
            forall|k: int| 0 <= k < i ==> chars@[k] == wanted@[k],
    {
        if chars[i] != wanted[i] {
            assert(chars@.take(wanted@.len() as int)[i as int] != prefix@[i as int]);
            return None;
        }
    }
    assert(chars@.take(wanted@.len() as int) =~= prefix@);
    let mut found: Vec<char> = Vec::new();
    let start: usize = wanted.len();
    for i in start..chars.len()
        invariant
            start == prefix@.len(),
            start <= chars@.len(),
            start <= i,
            found@ == chars@.subrange(start as int, i as int),
    {
        assert(chars@.subrange(start as int, i as int).push(chars@[i as int]) =~= chars@.subrange(
            start as int,
            i + 1,
        ));
        found.push(chars[i]);
    }
    assert(chars@.subrange(start as int, chars@.len() as int) =~= chars@.skip(start as int));
    Some(found)
}

/// A longer run of digits stands for a number that is at least as large.
proof fn lemma_digits_grow(s: Seq<char>, i: int)
    requires
        0 <= i <= s.len(),
    ensures
        digits_value(s.take(i)) is None ==> digits_value(s) is None,
        digits_value(s) is Some ==> digits_value(s.take(i))->0 <= digits_value(s)->0,
    decreases s.len(),
{
    if i == s.len() {
        assert(s.take(i) =~= s);
    } else {
        lemma_digits_grow(s.drop_last(), i);
        assert(s.drop_last().take(i) =~= s.take(i));
    }
}

/// Read a 32-bit number: at least one decimal digit, after an optional plus sign.
pub fn parse_u32(chars: &[char]) -> (value: Option<u32>)
    ensures
        value == u32_value(chars@),
{
    let start: usize = if chars.len() > 0 && chars[0] == '+' {
        1
    } else {
        0
    };
    let ghost digits = without_plus(chars@);
    assert(digits =~= chars@.skip(start as int));
    if start == chars.len() {
        return None;
    }
    let mut total: u64 = 0;
    assert(digits.take(0) =~= Seq::<char>::empty());
    for i in start..chars.len()
        invariant
            start <= i,
            start < chars@.len(),
            digits == chars@.skip(start as int),
            digits == without_plus(chars@),
            total <= u32::MAX,
            digits_value(digits.take(i - start)) == Some(total as nat),
    {
        let c: char = chars[i];
        proof {
            let next = digits.take(i - start + 1);
            assert(next.drop_last() =~= digits.take(i - start));
            assert(next.last() == c);
            lemma_digits_grow(digits, i - start + 1);
        }
        if c < '0' || c > '9' {
            return None;
        }
        total = 10 * total + (c as u64 - '0' as u64);
        if total > u32::MAX as u64 {
            return None;
        }
    }
    assert(digits.take(digits.len() as int) =~= digits);
    Some(total as u32)
}

/// The decimal digit of a number below ten.
pub open spec fn digit_char(d: nat) -> char {
    ('0' as int + d) as char
}

/// The decimal digits of a number.
pub open spec fn decimal(n: nat) -> Seq<char>
    decreases n,
{
    if n < 10 {
        seq![digit_char(n)]
    } else {
        decimal(n / 10).push(digit_char(n % 10))
    }
}

/// The decimal digits of a number stand for that number.
pub proof fn law_decimal_reads_back(n: u32)
    ensures
        u32_value(decimal(n as nat)) == Some(n),
{
    lemma_decimal(n as nat);
}

/// The decimal digits of a number are digits, at least one, and have its value.
pub proof fn lemma_decimal(n: nat)
    ensures
        decimal(n).len() > 0,
        digits_value(decimal(n)) == Some(n),
        forall|i: int| 0 <= i < decimal(n).len() ==> '0' <= #[trigger] decimal(n)[i] <= '9',
    decreases n,
{
    if n < 10 {
        let s = seq![digit_char(n)];
        assert(s.drop_last() =~= Seq::<char>::empty());
        assert(digits_value(s.drop_last()) == Some(0nat));
        assert(digit_value(s.last()) == Some(n));
    } else {
        lemma_decimal(n / 10);
        let high = decimal(n / 10);
        let s = high.push(digit_char(n % 10));
        assert(s.drop_last() =~= high);
        assert(digit_value(s.last()) == Some(n % 10));
    }
}

/// A text without the separator is a single piece.
pub proof fn lemma_split_single(s: Seq<char>, sep: char)
    requires
        !s.contains(sep),
    ensures
        split_on(s, sep) == seq![s],
    decreases s.len(),
{
    if s.len() > 0 {
        let t = s.drop_last();
        assert(s[s.len() - 1] != sep);
        assert forall|i: int| 0 <= i < t.len() implies t[i] != sep by {
            assert(s[i] != sep);
        }
        lemma_split_single(t, sep);
        assert(t.push(s.last()) =~= s);
        assert(seq![t].drop_last() =~= Seq::<Seq<char>>::empty());
    } else {
        assert(s =~= Seq::<char>::empty());
    }
    assert(split_on(s, sep) =~= seq![s]);
}

/// Text after a separator, without another one, is one more piece.
pub proof fn lemma_split_append(a: Seq<char>, b: Seq<char>, sep: char)
    requires
        !b.contains(sep),
    ensures
        split_on(a.push(sep) + b, sep) == split_on(a, sep).push(b),
    decreases b.len(),
{
    let s = a.push(sep) + b;
    if b.len() == 0 {
        assert(s =~= a.push(sep));
        assert(s.drop_last() =~= a);
        assert(b =~= Seq::<char>::empty());
    } else {
        let c = b.drop_last();
        assert(b[b.len() - 1] != sep);
        assert forall|i: int| 0 <= i < c.len() implies c[i] != sep by {
            assert(b[i] != sep);
        }
        lemma_split_append(a, c, sep);
        assert(s.drop_last() =~= a.push(sep) + c);
        assert(c.push(b.last()) =~= b);
        assert(split_on(s, sep) =~= split_on(a, sep).push(b));
    }
}

/// What follows a separator does not change the first piece.
pub proof fn lemma_split_first(a: Seq<char>, b: Seq<char>, sep: char)
    requires
        !a.contains(sep),
    ensures
        split_on(a.push(sep) + b, sep).len() > 1,
        split_on(a.push(sep) + b, sep)[0] == a,
    decreases b.len(),
{
    let s = a.push(sep) + b;
    if b.len() == 0 {
        assert(s =~= a.push(sep));
        assert(s.drop_last() =~= a);
        lemma_split_single(a, sep);
    } else {
        lemma_split_first(a, b.drop_last(), sep);
        assert(s.drop_last() =~= a.push(sep) + b.drop_last());
    }
}

/// The pieces, with the separator between each two of them.
pub open spec fn joined(pieces: Seq<Seq<char>>, sep: char) -> Seq<char>
    decreases pieces.len(),
{
    if pieces.len() == 0 {
        Seq::empty()
    } else if pieces.len() == 1 {
        pieces[0]
    } else {
        joined(pieces.drop_last(), sep).push(sep) + pieces.last()
    }
}

/// Splitting loses nothing and leaves nothing to split: the pieces hold no
/// separator, and joined by it they give the text back.
pub proof fn law_split_joins_back(s: Seq<char>, sep: char)
    ensures
        split_on(s, sep).len() > 0,
        joined(split_on(s, sep), sep) == s,
        forall|i: int, j: int|
            0 <= i < split_on(s, sep).len() && 0 <= j < split_on(s, sep)[i].len()
                ==> #[trigger] split_on(s, sep)[i][j] != sep,
    decreases s.len(),
{
    if s.len() == 0 {
        assert(joined(split_on(s, sep), sep) =~= s);
    } else {
        let t = s.drop_last();
        law_split_joins_back(t, sep);
        let before = split_on(t, sep);
        let pieces = split_on(s, sep);
        if s.last() == sep {
            assert(pieces.drop_last() =~= before);
            assert(joined(pieces, sep) =~= t.push(sep));
            assert(t.push(sep) =~= s);
        } else {
            assert(pieces.drop_last() =~= before.drop_last());
            assert(joined(pieces, sep) =~= joined(before, sep).push(s.last()));
            assert(t.push(s.last()) =~= s);
        }
        assert forall|i: int, j: int|
            0 <= i < pieces.len() && 0 <= j < pieces[i].len() implies #[trigger] pieces[i][j]
            != sep by {
            if i < before.len() - 1 {
                assert(pieces[i] == before[i]);
                assert(before[i][j] != sep);
            } else if s.last() == sep {
                if i == before.len() - 1 {
                    assert(pieces[i] == before[i]);
                    assert(before[i][j] != sep);
                }
            } else {
                if j < before.last().len() {
                    assert(before[before.len() - 1][j] != sep);
                }
            }
        }
    }
}

/// What follows a prefix is the rest of the text; a text that does not start with
/// the prefix has no such rest.
pub proof fn law_rest_after_prefix(s: Seq<char>, prefix: Seq<char>)
    ensures
        after_prefix(prefix + s, prefix) == Some(s),
        match after_prefix(s, prefix) {
            Some(rest) => s == prefix + rest,
            None => forall|rest: Seq<char>| s != #[trigger] (prefix + rest),
        },
{
    let n = prefix.len() as int;
    assert((prefix + s).take(n) =~= prefix);
    assert((prefix + s).skip(n) =~= s);
    if after_prefix(s, prefix) is Some {
        assert(s =~= prefix + s.skip(n));
    } else {
        assert forall|rest: Seq<char>| s != #[trigger] (prefix + rest) by {
            assert((prefix + rest).take(n) =~= prefix);
        }
    }
}

/// A digit alone is a number from zero to nine.
pub proof fn law_one_digit(c: char)
    ensures
        '0' <= c <= '9' ==> u32_value(seq![c]) == Some((c as int - '0' as int) as u32),
        !('0' <= c <= '9') ==> u32_value(seq![c]) is None,
{
    let s = seq![c];
    assert(s.drop_last() =~= Seq::<char>::empty());
    assert(digits_value(s.drop_last()) == Some(0nat));
    assert(s.last() == c);
    if c == '+' {
        assert(without_plus(s).len() == 0);
    }
}

/// One more digit makes a number ten times as large, plus the digit, as far as the
/// result fits 32 bits; anything but a digit makes it no number.
pub proof fn law_one_more_digit(s: Seq<char>, c: char)
    requires
        s.len() > 0,
        s != seq!['+'],
    ensures
        match u32_value(s) {
            Some(value) => if '0' <= c <= '9' && 10 * value + (c as int - '0' as int)
                <= u32::MAX {
                u32_value(s.push(c)) == Some((10 * value + (c as int - '0' as int)) as u32)
            } else {
                u32_value(s.push(c)) is None
            },
            None => u32_value(s.push(c)) is None,
        },
{
    let t = s.push(c);
    let digits = without_plus(s);
    if s[0] == '+' {
        assert(digits.len() > 0) by {
            if s.len() == 1 {
                assert(s =~= seq!['+']);
            }
        }
        assert(without_plus(t) =~= digits.push(c));
    } else {
        assert(without_plus(t) =~= digits.push(c));
    }
    assert(digits.push(c).drop_last() =~= digits);
    assert(digits.push(c).last() == c);
}

/// A plus sign before a number changes nothing; a second one, or none behind it,
/// is no number, and neither is an empty text.
pub proof fn law_plus_sign(s: Seq<char>)
    ensures
        u32_value(Seq::<char>::empty()) is None,
        u32_value(seq!['+']) is None,
        s.len() > 0 && s[0] != '+' ==> u32_value(seq!['+'] + s) == u32_value(s),
        s.len() > 0 && s[0] == '+' ==> u32_value(seq!['+'] + s) is None,
{
    let t = seq!['+'] + s;
    assert(t.skip(1) =~= s);
    assert(without_plus(seq!['+']).len() == 0);
    if s.len() > 0 && s[0] == '+' {
        lemma_digits_grow(s, 1);
        assert(s.take(1).drop_last() =~= Seq::<char>::empty());
        assert(s.take(1).last() == '+');
        assert(digits_value(s.take(1)) is None);
    }
}

/// The characters of pieces are those of each piece, whole and in order.
pub proof fn law_whole_pieces(pieces: Seq<Vec<char>>, i: int)
    requires
        0 <= i < pieces.len(),
    ensures
        piece_chars(pieces).len() == pieces.len(),
        piece_chars(pieces)[i].len() == pieces[i]@.len(),
        forall|j: int| 0 <= j < pieces[i]@.len() ==> piece_chars(pieces)[i][j] == pieces[i]@[j],
{
}

} // verus!
