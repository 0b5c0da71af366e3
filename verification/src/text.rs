//! Character-level text operations: trimming, splitting on a separator,
//! whitespace-separated words and lines, each with its meaning on `Seq<char>`.

use vstd::prelude::*;

verus! {

/// Whether `c` is white space: a character with the Unicode property
/// `White_Space`.
pub open spec fn is_whitespace(c: char) -> bool {
    let n = c as u32;
    ||| 0x09 <= n <= 0x0D
    ||| n == 0x20
    ||| n == 0x85
    ||| n == 0xA0
    ||| n == 0x1680
    ||| 0x2000 <= n <= 0x200A
    ||| n == 0x2028
    ||| n == 0x2029
    ||| n == 0x202F
    ||| n == 0x205F
    ||| n == 0x3000
}

/// `s` without the white space at its start.
pub open spec fn trim_start(s: Seq<char>) -> Seq<char>
    decreases s.len(),
{
    if s.len() > 0 && is_whitespace(s[0]) {
        trim_start(s.drop_first())
    } else {
        s
    }
}

/// `s` without the white space at its end.
pub open spec fn trim_end(s: Seq<char>) -> Seq<char>
    decreases s.len(),
{
    if s.len() > 0 && is_whitespace(s.last()) {
        trim_end(s.drop_last())
    } else {
        s
    }
}

/// `s` without the white space at either end.
pub open spec fn trim(s: Seq<char>) -> Seq<char> {
    trim_end(trim_start(s))
}

/// The position of the first `c` in `s`, or the length of `s` when `c` does
/// not occur in it.
pub open spec fn index_of(s: Seq<char>, c: char) -> nat
    decreases s.len(),
{
    if s.len() == 0 || s[0] == c {
        0
    } else {
        1 + index_of(s.drop_first(), c)
    }
}

/// Whether `c` occurs in `s`.
pub open spec fn has_char(s: Seq<char>, c: char) -> bool {
    index_of(s, c) < s.len()
}

/// The pieces of `s` between occurrences of `sep`. There is always at least
/// one piece, and a piece may be empty.
pub open spec fn split(s: Seq<char>, sep: char) -> Seq<Seq<char>>
    decreases s.len(),
{
    let i = index_of(s, sep) as int;
    if i >= s.len() {
        seq![s]
    } else {
        seq![s.take(i)] + split(s.skip(i + 1), sep)
    }
}

/// The number of characters at the start of `s` that are not white space.
pub open spec fn word_len(s: Seq<char>) -> nat
    decreases s.len(),
{
    if s.len() > 0 && !is_whitespace(s[0]) {
        1 + word_len(s.drop_first())
    } else {
        0
    }
}

/// The words of `s`: its maximal runs of characters that are not white
/// space, in order.
pub open spec fn words(s: Seq<char>) -> Seq<Seq<char>>
    decreases s.len(),
{
    if s.len() == 0 {
        Seq::empty()
    } else if is_whitespace(s[0]) {
        words(s.drop_first())
    } else {
        let n = word_len(s) as int;
        proof {
            lemma_word_len_bounds(s);
        }
        seq![s.take(n)] + words(s.skip(n))
    }
}

/// `line` without one carriage return at its end.
pub open spec fn strip_cr(line: Seq<char>) -> Seq<char> {
    if line.len() > 0 && line.last() == '\r' {
        line.drop_last()
    } else {
        line
    }
}

/// The lines of `s`. A line ends at a line feed or at the end of the text;
/// a line that a line feed ends loses one carriage return before it, and
/// nothing follows the last line feed.
pub open spec fn lines(s: Seq<char>) -> Seq<Seq<char>>
    decreases s.len(),
{
    let i = index_of(s, '\n') as int;
    if s.len() == 0 {
        Seq::empty()
    } else if i >= s.len() {
        seq![s]
    } else {
        seq![strip_cr(s.take(i))] + lines(s.skip(i + 1))
    }
}

/// The views of a list of texts, in order.
pub open spec fn texts(list: Seq<String>) -> Seq<Seq<char>> {
    Seq::new(list.len(), |i: int| list[i]@)
}

/// The texts that the index pairs `ranges` cut out of `chars`.
pub open spec fn pieces(chars: Seq<char>, ranges: Seq<(usize, usize)>) -> Seq<Seq<char>> {
    Seq::new(ranges.len(), |i: int| chars.subrange(ranges[i].0 as int, ranges[i].1 as int))
}

/// Whether each pair of `ranges` is a range inside `from..to`.
pub open spec fn ranges_within(ranges: Seq<(usize, usize)>, from: int, to: int) -> bool {
    forall|i: int|
        0 <= i < ranges.len() ==> from <= (#[trigger] ranges[i]).0 <= ranges[i].1 <= to
}

/// The first word of `s` ends inside `s`, holds no white space, and white
/// space follows it unless it ends `s`.
pub proof fn lemma_word_len_bounds(s: Seq<char>)
    ensures
        word_len(s) <= s.len(),
        s.len() > 0 && !is_whitespace(s[0]) ==> word_len(s) >= 1,
        forall|i: int| 0 <= i < word_len(s) ==> !is_whitespace(#[trigger] s[i]),
        word_len(s) < s.len() ==> is_whitespace(s[word_len(s) as int]),
    decreases s.len(),
{
    if s.len() > 0 && !is_whitespace(s[0]) {
        let t = s.drop_first();
        lemma_word_len_bounds(t);
        assert forall|i: int| 0 <= i < word_len(s) implies !is_whitespace(#[trigger] s[i]) by {
            if i > 0 {
                assert(s[i] == t[i - 1]);
            }
        }
        if word_len(s) < s.len() {
            assert(s[word_len(s) as int] == t[word_len(t) as int]);
        }
    }
}

/// The first position of `s` that holds white space, or ends `s`, is where
/// its first word ends.
pub proof fn lemma_word_len_is(s: Seq<char>, k: int)
    requires
        0 <= k <= s.len(),
        forall|i: int| 0 <= i < k ==> !is_whitespace(#[trigger] s[i]),
        k == s.len() || is_whitespace(s[k]),
    ensures
        word_len(s) == k,
    decreases k,
{
    if k > 0 {
        let t = s.drop_first();
        assert forall|i: int| 0 <= i < k - 1 implies !is_whitespace(#[trigger] t[i]) by {
            assert(t[i] == s[i + 1]);
        }
        lemma_word_len_is(t, k - 1);
    }
}

/// The first position of `s` that holds `c`, or ends `s`, is `index_of`.
pub proof fn lemma_index_of_is(s: Seq<char>, c: char, k: int)
    requires
        0 <= k <= s.len(),
        forall|i: int| 0 <= i < k ==> #[trigger] s[i] != c,
        k == s.len() || s[k] == c,
    ensures
        index_of(s, c) == k,
    decreases k,
{
    if k > 0 {
        let t = s.drop_first();
        assert forall|i: int| 0 <= i < k - 1 implies #[trigger] t[i] != c by {
            assert(t[i] == s[i + 1]);
        }
        lemma_index_of_is(t, c, k - 1);
    }
}

/// `index_of` is a position of `s` or its length; no `c` stands before it,
/// and `c` stands at it unless it is the length.
pub proof fn lemma_index_of_bounds(s: Seq<char>, c: char)
    ensures
        index_of(s, c) <= s.len(),
        forall|i: int| 0 <= i < index_of(s, c) ==> #[trigger] s[i] != c,
        index_of(s, c) < s.len() ==> s[index_of(s, c) as int] == c,
    decreases s.len(),
{
    if !(s.len() == 0 || s[0] == c) {
        let t = s.drop_first();
        lemma_index_of_bounds(t, c);
        assert forall|i: int| 0 <= i < index_of(s, c) implies #[trigger] s[i] != c by {
            if i > 0 {
                assert(s[i] == t[i - 1]);
            }
        }
        if index_of(s, c) < s.len() {
            assert(s[index_of(s, c) as int] == t[index_of(t, c) as int]);
        }
    }
}

/// Skipping `k` leading white-space characters, up to one that is not, trims
/// the start.
pub proof fn lemma_trim_start_is(s: Seq<char>, k: int)
    requires
        0 <= k <= s.len(),
        forall|i: int| 0 <= i < k ==> is_whitespace(#[trigger] s[i]),
        k == s.len() || !is_whitespace(s[k]),
    ensures
        trim_start(s) == s.skip(k),
    decreases k,
{
    if k > 0 {
        let t = s.drop_first();
        assert forall|i: int| 0 <= i < k - 1 implies is_whitespace(#[trigger] t[i]) by {
            assert(t[i] == s[i + 1]);
        }
        lemma_trim_start_is(t, k - 1);
        assert(t.skip(k - 1) =~= s.skip(k));
    } else {
        assert(s.skip(0) =~= s);
    }
}

/// Cutting the trailing white space after position `k`, where the character
/// before `k` is none, trims the end.
pub proof fn lemma_trim_end_is(s: Seq<char>, k: int)
    requires
        0 <= k <= s.len(),
        forall|i: int| k <= i < s.len() ==> is_whitespace(#[trigger] s[i]),
        k == 0 || !is_whitespace(s[k - 1]),
    ensures
        trim_end(s) == s.take(k),
    decreases s.len() - k,
{
    if k < s.len() {
        let t = s.drop_last();
        lemma_trim_end_is(t, k);
        assert(t.take(k) =~= s.take(k));
    } else {
        assert(s.take(k) =~= s);
    }
}

/// The first piece of a split ends at the first separator, and there is a
/// second piece exactly when a separator occurs: it is the first piece of
/// what follows that separator.
pub proof fn lemma_split_first(s: Seq<char>, sep: char)
    ensures
        split(s, sep).len() >= 1,
        split(s, sep)[0] == s.take(index_of(s, sep) as int),
        split(s, sep).len() >= 2 <==> has_char(s, sep),
        has_char(s, sep) ==> split(s, sep)[1] == split(s.skip(index_of(s, sep) as int + 1), sep)[0],
{
    let i = index_of(s, sep) as int;
    lemma_index_of_bounds(s, sep);
    if i >= s.len() {
        assert(s.take(i) =~= s);
    } else {
        lemma_split_first_len(s.skip(i + 1), sep);
    }
}

proof fn lemma_split_first_len(s: Seq<char>, sep: char)
    ensures
        split(s, sep).len() >= 1,
{
}

/// Whether `c` is a decimal digit.
pub open spec fn is_digit(c: char) -> bool {
    0x30 <= c as u32 <= 0x39
}

/// The number that the decimal digits `digits` spell.
pub open spec fn decimal_value(digits: Seq<char>) -> nat
    decreases digits.len(),
{
    if digits.len() == 0 {
        0
    } else {
        decimal_value(digits.drop_last()) * 10 + (digits.last() as u32 - 0x30) as nat
    }
}

/// Whether `s` holds decimal digits only.
pub open spec fn all_digits(s: Seq<char>) -> bool {
    forall|i: int| 0 <= i < s.len() ==> is_digit(#[trigger] s[i])
}

/// The number that the digits `s` spell, if `s` is one decimal digit or more
/// and the number is at most `max`.
pub open spec fn digits_number(s: Seq<char>, max: nat) -> Option<nat> {
    if s.len() > 0 && all_digits(s) && decimal_value(s) <= max {
        Some(decimal_value(s))
    } else {
        None
    }
}

/// The number that `s` spells, if `s` is a decimal number that is at most
/// `max`: at least one decimal digit, with or without a plus sign before.
pub open spec fn parse_number(s: Seq<char>, max: nat) -> Option<nat> {
    if s.len() > 0 && s[0] == '+' {
        digits_number(s.drop_first(), max)
    } else {
        digits_number(s, max)
    }
}

/// The number that `s` spells, if `s` is a decimal number that fits in 64
/// bits with a sign: at least one decimal digit, with or without a plus or
/// a minus sign before.
pub open spec fn parse_signed(s: Seq<char>) -> Option<int> {
    if s.len() > 0 && s[0] == '-' {
        match digits_number(s.drop_first(), 0x8000_0000_0000_0000) {
            Some(n) => Some(-(n as int)),
            None => None,
        }
    } else {
        match parse_number(s, 0x7fff_ffff_ffff_ffff) {
            Some(n) => Some(n as int),
            None => None,
        }
    }
}

/// More digits spell no smaller a number.
pub proof fn lemma_decimal_value_grows(digits: Seq<char>, n: int)
    requires
        0 <= n <= digits.len(),
        all_digits(digits),
    ensures
        decimal_value(digits.take(n)) <= decimal_value(digits),
    decreases digits.len() - n,
{
    if n < digits.len() {
        let front = digits.drop_last();
        assert(all_digits(front)) by {
            assert forall|i: int| 0 <= i < front.len() implies is_digit(#[trigger] front[i]) by {
                assert(front[i] == digits[i]);
            }
        }
        lemma_decimal_value_grows(front, n);
        assert(front.take(n) =~= digits.take(n));
        assert(is_digit(digits[digits.len() - 1]));
    } else {
        assert(digits.take(n) =~= digits);
    }
}

/// The equality of `str` in the standard library, `PartialEq::eq`: two texts
/// are equal exactly when they hold the same characters. This is taken from
/// its documentation and not proved.
pub assume_specification[ <str as PartialEq>::eq ](a: &str, b: &str) -> (same: bool)
    ensures
        same == (a@ == b@),
;

/// Decides whether two texts hold the same characters.
pub fn str_eq(a: &str, b: &str) -> (same: bool)
    ensures
        same == (a@ == b@),
{
    *a == *b
}

/// `String::push` of the standard library appends one character to the end
/// of the text. This is taken from its documentation and not proved.
pub assume_specification[ String::push ](s: &mut String, c: char)
    ensures
        final(s)@ == old(s)@.push(c),
;

/// The characters of `s`, in order.
pub fn chars_of(s: &str) -> (chars: Vec<char>)
    ensures
        chars@ == s@,
{
    let mut chars: Vec<char> = Vec::new();
    for c in it: s.chars()
        invariant
            it.seq() == s@,
            chars@ == it.seq().take(it.index()),
    {
        chars.push(c);
    }
    chars
}

/// The text made of the characters `chars[from..to]`.
pub fn string_of(chars: &Vec<char>, from: usize, to: usize) -> (s: String)
    requires
        from <= to <= chars.len(),
    ensures
        s@ == chars@.subrange(from as int, to as int),
{
    let mut s = String::new();
    let mut i: usize = from;
    while i < to
        invariant
            from <= i <= to <= chars.len(),
            s@ == chars@.subrange(from as int, i as int),
        decreases to - i,
    {
        s.push(chars[i]);
        i += 1;
    }
    s
}

/// Decides whether `c` is white space.
pub fn char_is_whitespace(c: char) -> (b: bool)
    ensures
        b == is_whitespace(c),
{
    let n: u32 = c as u32;
    (0x09 <= n && n <= 0x0D) || n == 0x20 || n == 0x85 || n == 0xA0 || n == 0x1680 || (0x2000 <= n
        && n <= 0x200A) || n == 0x2028 || n == 0x2029 || n == 0x202F || n == 0x205F || n == 0x3000
}

/// Finds the first `c` in `chars[from..to]`; the result is `to` when there is
/// none.
pub fn find_char(chars: &Vec<char>, from: usize, to: usize, c: char) -> (at: usize)
    requires
        from <= to <= chars.len(),
    ensures
        from <= at <= to,
        at - from == index_of(chars@.subrange(from as int, to as int), c),
{
    let mut at: usize = from;
    while at < to && chars[at] != c
        invariant
            from <= at <= to <= chars.len(),
            forall|i: int| from <= i < at ==> chars@[i] != c,
        decreases to - at,
    {
        at += 1;
    }
    proof {
        lemma_index_of_is(chars@.subrange(from as int, to as int), c, at - from);
    }
    at
}

/// Finds where the white space at both ends of `chars[from..to]` stops: the
/// range returned holds the trimmed text.
pub fn trim_range(chars: &Vec<char>, from: usize, to: usize) -> (r: (usize, usize))
    requires
        from <= to <= chars.len(),
    ensures
        from <= r.0 <= r.1 <= to,
        chars@.subrange(r.0 as int, r.1 as int) == trim(chars@.subrange(from as int, to as int)),
{
    let mut a: usize = from;
    while a < to && char_is_whitespace(chars[a])
        invariant
            from <= a <= to <= chars.len(),
            forall|i: int| from <= i < a ==> is_whitespace(chars@[i]),
        decreases to - a,
    {
        a += 1;
    }
    let mut b: usize = to;
    while b > a && char_is_whitespace(chars[b - 1])
        invariant
            a <= b <= to <= chars.len(),
            forall|i: int| b <= i < to ==> is_whitespace(chars@[i]),
        decreases b - a,
    {
        b -= 1;
    }
    proof {
        let s = chars@.subrange(from as int, to as int);
        let t = chars@.subrange(a as int, to as int);
        lemma_trim_start_is(s, a - from);
        assert(s.skip(a - from) =~= t);
        lemma_trim_end_is(t, b - a);
        assert(t.take(b - a) =~= chars@.subrange(a as int, b as int));
    }
    (a, b)
}

/// Cuts `chars[from..to]` at each `sep`: the ranges returned hold the pieces,
/// in order.
pub fn split_ranges(chars: &Vec<char>, from: usize, to: usize, sep: char) -> (ranges: Vec<
    (usize, usize),
>)
    requires
        from <= to <= chars.len(),
    ensures
        ranges_within(ranges@, from as int, to as int),
        pieces(chars@, ranges@) == split(chars@.subrange(from as int, to as int), sep),
        ranges.len() >= 1,
{
    let mut ranges: Vec<(usize, usize)> = Vec::new();
    let mut pos: usize = from;
    loop
        invariant_except_break
            from <= pos <= to <= chars.len(),
            ranges_within(ranges@, from as int, to as int),
            split(chars@.subrange(from as int, to as int), sep) == pieces(chars@, ranges@) + split(
                chars@.subrange(pos as int, to as int),
                sep,
            ),
        ensures
            ranges_within(ranges@, from as int, to as int),
            pieces(chars@, ranges@) == split(chars@.subrange(from as int, to as int), sep),
            ranges.len() >= 1,
        decreases to - pos,
    {
        let at = find_char(chars, pos, to, sep);
        let ghost rest = chars@.subrange(pos as int, to as int);
        let ghost before = pieces(chars@, ranges@);
        ranges.push((pos, at));
        proof {
            assert(pieces(chars@, ranges@) =~= before + seq![
                chars@.subrange(pos as int, at as int),
            ]);
        }
        if at == to {
            proof {
                assert(rest.take(at - pos) =~= rest);
                assert(split(rest, sep) == seq![rest]);
            }
            break ;
        }
        proof {
            assert(rest.take(at - pos) =~= chars@.subrange(pos as int, at as int));
            assert(rest.skip(at - pos + 1) =~= chars@.subrange(at + 1, to as int));
            assert(before + (seq![rest.take(at - pos)] + split(rest.skip(at - pos + 1), sep))
                =~= (before + seq![rest.take(at - pos)]) + split(rest.skip(at - pos + 1), sep));
        }
        pos = at + 1;
    }
    ranges
}

/// Finds the words of `chars[from..to]`: the ranges returned hold its runs of
/// characters that are not white space, in order.
pub fn word_ranges(chars: &Vec<char>, from: usize, to: usize) -> (ranges: Vec<(usize, usize)>)
    requires
        from <= to <= chars.len(),
    ensures
        ranges_within(ranges@, from as int, to as int),
        pieces(chars@, ranges@) == words(chars@.subrange(from as int, to as int)),
{
    let mut ranges: Vec<(usize, usize)> = Vec::new();
    let mut pos: usize = from;
    proof {
        assert(pieces(chars@, ranges@) =~= Seq::<Seq<char>>::empty());
    }
    while pos < to
        invariant
            from <= pos <= to <= chars.len(),
            ranges_within(ranges@, from as int, to as int),
            words(chars@.subrange(from as int, to as int)) == pieces(chars@, ranges@) + words(
                chars@.subrange(pos as int, to as int),
            ),
        decreases to - pos,
    {
        let ghost rest = chars@.subrange(pos as int, to as int);
        if char_is_whitespace(chars[pos]) {
            proof {
                assert(rest.drop_first() =~= chars@.subrange(pos + 1, to as int));
            }
            pos += 1;
        } else {
            let mut end: usize = pos + 1;
            while end < to && !char_is_whitespace(chars[end])
                invariant
                    pos < end <= to <= chars.len(),
                    forall|i: int| pos <= i < end ==> !is_whitespace(chars@[i]),
                decreases to - end,
            {
                end += 1;
            }
            let ghost before = pieces(chars@, ranges@);
            ranges.push((pos, end));
            proof {
                lemma_word_len_is(rest, end - pos);
                assert(pieces(chars@, ranges@) =~= before + seq![
                    chars@.subrange(pos as int, end as int),
                ]);
                assert(rest.take(end - pos) =~= chars@.subrange(pos as int, end as int));
                assert(rest.skip(end - pos) =~= chars@.subrange(end as int, to as int));
                assert(before + (seq![rest.take(end - pos)] + words(rest.skip(end - pos))) =~= (
                before + seq![rest.take(end - pos)]) + words(rest.skip(end - pos)));
            }
            pos = end;
        }
    }
    proof {
        assert(words(chars@.subrange(pos as int, to as int)) =~= Seq::<Seq<char>>::empty());
    }
    ranges
}

/// Splits a text into its lines.
pub fn split_lines(text: &str) -> (out: Vec<String>)
    ensures
        texts(out@) == lines(text@),
{
    let chars = chars_of(text);
    let to = chars.len();
    let mut out: Vec<String> = Vec::new();
    let mut pos: usize = 0;
    proof {
        assert(chars@.subrange(0, to as int) =~= text@);
        assert(texts(out@) =~= Seq::<Seq<char>>::empty());
    }
    while pos < to
        invariant
            pos <= to == chars.len(),
            chars@ == text@,
            lines(text@) == texts(out@) + lines(chars@.subrange(pos as int, to as int)),
        decreases to - pos,
    {
        let at = find_char(&chars, pos, to, '\n');
        let ghost rest = chars@.subrange(pos as int, to as int);
        let ghost before = texts(out@);
        if at == to {
            let line = string_of(&chars, pos, to);
            out.push(line);
            proof {
                assert(texts(out@) =~= before + seq![rest]);
                assert(lines(chars@.subrange(to as int, to as int)) =~= Seq::<Seq<char>>::empty());
            }
            pos = to;
        } else {
            let end: usize = if at > pos && chars[at - 1] == '\r' {
                (at - 1) as usize
            } else {
                at
            };
            let line = string_of(&chars, pos, end);
            out.push(line);
            proof {
                let raw = rest.take(at - pos);
                assert(raw =~= chars@.subrange(pos as int, at as int));
                assert(strip_cr(raw) =~= chars@.subrange(pos as int, end as int));
                assert(texts(out@) =~= before + seq![strip_cr(raw)]);
                assert(rest.skip(at - pos + 1) =~= chars@.subrange(at + 1, to as int));
                assert(before + (seq![strip_cr(raw)] + lines(rest.skip(at - pos + 1))) =~= (before
                    + seq![strip_cr(raw)]) + lines(rest.skip(at - pos + 1)));
            }
            pos = at + 1;
        }
    }
    proof {
        assert(lines(chars@.subrange(pos as int, to as int)) =~= Seq::<Seq<char>>::empty());
    }
    out
}

/// Reads `chars[from..to]` as decimal digits that spell a number of at most
/// `max`.
pub fn parse_digits(chars: &Vec<char>, from: usize, to: usize, max: u64) -> (value: Option<u64>)
    requires
        from <= to <= chars.len(),
    ensures
        match value {
            Some(v) => digits_number(chars@.subrange(from as int, to as int), max as nat) == Some(
                v as nat,
            ),
            None => digits_number(chars@.subrange(from as int, to as int), max as nat) is None,
        },
{
    let ghost digits = chars@.subrange(from as int, to as int);
    if from == to {
        return None;
    }
    let mut value: u128 = 0;
    let mut i: usize = from;
    proof {
        assert(digits.take(0) =~= Seq::<char>::empty());
    }
    while i < to
        invariant
            from <= i <= to <= chars.len(),
            from < to,
            digits == chars@.subrange(from as int, to as int),
            value <= max,
            all_digits(digits.take(i - from)),
            value == decimal_value(digits.take(i - from)),
        decreases to - i,
    {
        let n: u32 = chars[i] as u32;
        if n < 0x30 || n > 0x39 {
            proof {
                assert(digits[i - from] == chars@[i as int]);
                assert(!is_digit(digits[i - from]));
            }
            return None;
        }
        let ghost front = digits.take(i - from);
        let ghost next = digits.take(i - from + 1);
        proof {
            assert(next.drop_last() =~= front);
            assert(next.last() == chars@[i as int]);
            assert(all_digits(next)) by {
                assert forall|j: int| 0 <= j < next.len() implies is_digit(#[trigger] next[j]) by {
                    if j < front.len() {
                        assert(front[j] == next[j]);
                    }
                }
            }
        }
        let more: u128 = value * 10 + (n - 0x30) as u128;
        if more > max as u128 {
            proof {
                if all_digits(digits) {
                    lemma_decimal_value_grows(digits, i - from + 1);
                }
            }
            return None;
        }
        value = more;
        i += 1;
    }
    proof {
        assert(digits.take(i - from) =~= digits);
    }
    Some(value as u64)
}

/// Reads `chars[from..to]` as a decimal number that is at most `max`.
pub fn parse_decimal(chars: &Vec<char>, from: usize, to: usize, max: u64) -> (value: Option<u64>)
    requires
        from <= to <= chars.len(),
    ensures
        match value {
            Some(v) => parse_number(chars@.subrange(from as int, to as int), max as nat) == Some(
                v as nat,
            ),
            None => parse_number(chars@.subrange(from as int, to as int), max as nat) is None,
        },
{
    let ghost s = chars@.subrange(from as int, to as int);
    if from < to && chars[from] == '+' {
        proof {
            assert(s[0] == chars@[from as int]);
            assert(s.drop_first() =~= chars@.subrange(from + 1, to as int));
        }
        parse_digits(chars, from + 1, to, max)
    } else {
        proof {
            if s.len() > 0 {
                assert(s[0] == chars@[from as int]);
            }
        }
        parse_digits(chars, from, to, max)
    }
}

/// Reads a text as a decimal number that fits in 64 bits with a sign.
pub fn parse_i64(text: &str) -> (value: Option<i64>)
    ensures
        match value {
            Some(v) => parse_signed(text@) == Some(v as int),
            None => parse_signed(text@) is None,
        },
{
    let chars = chars_of(text);
    let to = chars.len();
    proof {
        assert(chars@.subrange(0, to as int) =~= text@);
    }
    if 0 < to && chars[0] == '-' {
        proof {
            assert(text@.drop_first() =~= chars@.subrange(1, to as int));
        }
        match parse_digits(&chars, 1, to, 0x8000_0000_0000_0000) {
            Some(n) => {
                if n == 0x8000_0000_0000_0000 {
                    Some(i64::MIN)
                } else {
                    Some(-(n as i64))
                }
            },
            None => None,
        }
    } else {
        match parse_decimal(&chars, 0, to, 0x7fff_ffff_ffff_ffff) {
            Some(n) => Some(n as i64),
            None => None,
        }
    }
}

} // verus!
