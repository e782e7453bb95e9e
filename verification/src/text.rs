//! Character-level text handling: lines, white-space separated words, numbers.
//!
//! Every function here works on a sequence of characters. The `spec` functions take a
//! `Seq<char>`; the executable ones take a `Vec<char>` and are proved to compute the
//! same thing.
use vstd::prelude::*;

verus! {

/// Whether `c` is white space, as `char::is_whitespace` answers it: one of Unicode's
/// `White_Space` characters.
pub uninterp spec fn white_space(c: char) -> bool;

/// `char::is_whitespace` decides what the contracts call [`white_space`]: its answer
/// for a character is a fixed fact about that character.
pub assume_specification[ char::is_whitespace ](c: char) -> (b: bool)
    ensures
        b == white_space(c),
;

/// The lower-case form of a text, as `str::to_lowercase` produces it.
pub uninterp spec fn lowercase(s: Seq<char>) -> Seq<char>;

/// `str::to_lowercase` returns the lower-case form of the text it is given; the result
/// depends on the characters of the text alone.
pub assume_specification[ str::to_lowercase ](s: &str) -> (lower: String)
    ensures
        lower@ == lowercase(s@),
;

/// Whether `c` is numeric, as `char::is_numeric` answers it (the Unicode general
/// categories for numbers).
pub uninterp spec fn numeric(c: char) -> bool;

/// `char::is_numeric` decides what the contracts call [`numeric`]: its answer for a
/// character is a fixed fact about that character.
pub assume_specification[ char::is_numeric ](c: char) -> (b: bool)
    ensures
        b == numeric(c),
;

/// The upper-case form of `c`, as `char::to_uppercase` gives it: one character or
/// several.
pub uninterp spec fn uppercase(c: char) -> Seq<char>;

/// `char::to_uppercase` yields the characters of the upper-case form of the character
/// it is given; they depend on that character alone.
#[verifier::external_body]
pub(crate) fn uppercase_of(c: char) -> (upper: Vec<char>)
    ensures
        upper@ == uppercase(c),
{
    c.to_uppercase().collect()
}

/// The characters of `s`, in order.
pub fn chars_of(s: &str) -> (chars: Vec<char>)
    ensures
        chars@ == s@,
{
    let mut chars: Vec<char> = Vec::new();
    for c in it: s.chars()
        invariant
            chars@ == it.seq().take(it.index() as int),
    {
        chars.push(c);
    }
    chars
}

/// `String::from_iter`, reached through `collect`, builds the string that holds exactly
/// the given characters in the given order.
#[verifier::external_body]
pub(crate) fn string_of(chars: &Vec<char>) -> (s: String)
    ensures
        s@ == chars@,
{
    chars.iter().collect()
}

/// The position of the first `c` in `s`, or the length of `s` where `s` holds no `c`.
pub open spec fn first_index_of(s: Seq<char>, c: char) -> nat
    decreases s.len(),
{
    if s.len() == 0 || s[0] == c {
        0
    } else {
        1 + first_index_of(s.drop_first(), c)
    }
}

/// [`first_index_of`] is the one position below which no `c` stands and at which,
/// unless it is the end, a `c` stands.
pub proof fn lemma_first_index_of(s: Seq<char>, c: char, k: int)
    requires
        0 <= k <= s.len(),
        forall|j: int| 0 <= j < k ==> s[j] != c,
        k < s.len() ==> s[k] == c,
    ensures
        first_index_of(s, c) == k,
    decreases s.len(),
{
    if k > 0 {
        lemma_first_index_of(s.drop_first(), c, k - 1);
    }
}

/// The position of the first `c` at or after `from`, or the length of `s` where none
/// follows.
pub fn find_char(s: &Vec<char>, from: usize, c: char) -> (k: usize)
    requires
        from <= s.len(),
    ensures
        from <= k <= s.len(),
        k - from == first_index_of(s@.skip(from as int), c),
{
    let mut k: usize = from;
    while k < s.len() && s[k] != c
        invariant
            from <= k <= s.len(),
            forall|j: int| from <= j < k ==> s@[j] != c,
        decreases s.len() - k,
    {
        k += 1;
    }
    proof {
        lemma_first_index_of(s@.skip(from as int), c, k - from);
    }
    k
}

/// A copy of the characters of `s` from position `from` up to, not including, `to`.
pub fn slice_of(s: &Vec<char>, from: usize, to: usize) -> (part: Vec<char>)
    requires
        from <= to <= s.len(),
    ensures
        part@ == s@.subrange(from as int, to as int),
{
    let mut part: Vec<char> = Vec::new();
    let mut i: usize = from;
    while i < to
        invariant
            from <= i <= to <= s.len(),
            part@ == s@.subrange(from as int, i as int),
        decreases to - i,
    {
        part.push(s[i]);
        i += 1;
    }
    part
}

/// The character sequences that a vector of character vectors holds.
pub open spec fn views(parts: Seq<Vec<char>>) -> Seq<Seq<char>> {
    parts.map_values(|part: Vec<char>| part@)
}

/// The character sequences that a vector of strings holds.
pub open spec fn texts(parts: Seq<String>) -> Seq<Seq<char>> {
    parts.map_values(|part: String| part@)
}

/// `s` without one carriage return at its end, if it ends in one.
pub open spec fn strip_cr(s: Seq<char>) -> Seq<char> {
    if s.len() > 0 && s.last() == '\r' {
        s.drop_last()
    } else {
        s
    }
}

/// The lines of a text. A line ends at a line feed, which is not part of the line, nor
/// is a carriage return directly before it. The last line needs no line feed, and a
/// text that ends in a line feed has no empty line after it.
pub open spec fn lines(s: Seq<char>) -> Seq<Seq<char>>
    decreases s.len(),
{
    if s.len() == 0 {
        Seq::empty()
    } else {
        let n = first_index_of(s, '\n');
        if n < s.len() {
            seq![strip_cr(s.take(n as int))] + lines(s.skip(n as int + 1))
        } else {
            seq![s]
        }
    }
}

/// The lines of `s`, as [`lines`] defines them.
pub fn split_lines(s: &Vec<char>) -> (out: Vec<Vec<char>>)
    ensures
        views(out@) == lines(s@),
{
    let mut out: Vec<Vec<char>> = Vec::new();
    let mut start: usize = 0;
    proof {
        assert(s@.skip(0) == s@);
        assert(views(out@) + lines(s@) == lines(s@));
    }
    while start < s.len()
        invariant
            start <= s.len(),
            lines(s@) == views(out@) + lines(s@.skip(start as int)),
        decreases s.len() - start,
    {
        let end: usize = find_char(s, start, '\n');
        let ghost rest = s@.skip(start as int);
        let ghost before = views(out@);
        let mut stop: usize = end;
        let mut next: usize = end;
        if end < s.len() {
            if end > start && s[end - 1] == '\r' {
                stop = end - 1;
            }
            next = end + 1;
        }
        let line = slice_of(s, start, stop);
        proof {
            if end < s.len() {
                assert(rest.take(end - start) == s@.subrange(start as int, end as int));
                assert(line@ == strip_cr(rest.take(end - start)));
                assert(rest.skip(end - start + 1) == s@.skip(end + 1));
            } else {
                assert(line@ == rest);
                assert(lines(s@.skip(end as int)) == Seq::<Seq<char>>::empty());
            }
            assert(views(out@.push(line)) == before.push(line@));
        }
        out.push(line);
        start = next;
    }
    proof {
        assert(s@.skip(start as int).len() == 0);
    }
    out
}

/// The number of characters at the start of `s` up to the first white space or the end.
pub open spec fn word_len(s: Seq<char>) -> nat
    decreases s.len(),
{
    if s.len() == 0 || white_space(s[0]) {
        0
    } else {
        1 + word_len(s.drop_first())
    }
}

/// A leading word is never longer than the text it starts.
pub proof fn lemma_word_len_bound(s: Seq<char>)
    ensures
        word_len(s) <= s.len(),
    decreases s.len(),
{
    if s.len() > 0 && !white_space(s[0]) {
        lemma_word_len_bound(s.drop_first());
    }
}

/// [`word_len`] is the one position below which no white space stands and at which,
/// unless it is the end, white space stands.
pub proof fn lemma_word_len(s: Seq<char>, k: int)
    requires
        0 <= k <= s.len(),
        forall|j: int| 0 <= j < k ==> !white_space(s[j]),
        k < s.len() ==> white_space(s[k]),
    ensures
        word_len(s) == k,
    decreases s.len(),
{
    if k > 0 {
        lemma_word_len(s.drop_first(), k - 1);
    }
}

/// The words of a text: its maximal runs of characters that are not white space, in
/// order. White space only separates words; a text of white space alone has none.
pub open spec fn words(s: Seq<char>) -> Seq<Seq<char>>
    decreases s.len(),
{
    if s.len() == 0 {
        Seq::empty()
    } else if white_space(s[0]) {
        words(s.drop_first())
    } else {
        proof {
            lemma_word_len_bound(s);
        }
        let n = word_len(s) as int;
        seq![s.take(n)] + words(s.skip(n))
    }
}

/// The words of `s`, as [`words`] defines them.
pub fn split_words(s: &Vec<char>) -> (out: Vec<Vec<char>>)
    ensures
        views(out@) == words(s@),
{
    let mut out: Vec<Vec<char>> = Vec::new();
    let mut start: usize = 0;
    proof {
        assert(s@.skip(0) == s@);
        assert(views(out@) + words(s@) == words(s@));
    }
    while start < s.len()
        invariant
            start <= s.len(),
            words(s@) == views(out@) + words(s@.skip(start as int)),
        decreases s.len() - start,
    {
        let ghost rest = s@.skip(start as int);
        if s[start].is_whitespace() {
            proof {
                assert(rest.drop_first() == s@.skip(start + 1));
            }
            start += 1;
        } else {
            let mut end: usize = start + 1;
            while end < s.len() && !s[end].is_whitespace()
                invariant
                    start < end <= s.len(),
                    forall|j: int| start <= j < end ==> !white_space(s@[j]),
                decreases s.len() - end,
            {
                end += 1;
            }
            let word = slice_of(s, start, end);
            proof {
                lemma_word_len(rest, end - start);
                assert(rest.take(end - start) == word@);
                assert(rest.skip(end - start) == s@.skip(end as int));
                assert(views(out@.push(word)) == views(out@).push(word@));
            }
            out.push(word);
            start = end;
        }
    }
    proof {
        assert(s@.skip(start as int).len() == 0);
    }
    out
}

/// The parts written one after the other with a single space between neighbours.
pub open spec fn join_spaced(parts: Seq<Seq<char>>) -> Seq<char>
    decreases parts.len(),
{
    if parts.len() == 0 {
        Seq::empty()
    } else if parts.len() == 1 {
        parts[0]
    } else {
        join_spaced(parts.drop_last()) + seq![' '] + parts.last()
    }
}

/// The parts from position `from` up to, not including, `to`, joined by single spaces.
pub fn join_words(parts: &Vec<Vec<char>>, from: usize, to: usize) -> (joined: Vec<char>)
    requires
        from <= to <= parts.len(),
    ensures
        joined@ == join_spaced(views(parts@).subrange(from as int, to as int)),
{
    let mut joined: Vec<char> = Vec::new();
    let mut i: usize = from;
    let ghost all = views(parts@);
    while i < to
        invariant
            from <= i <= to <= parts.len(),
            all == views(parts@),
            joined@ == join_spaced(all.subrange(from as int, i as int)),
        decreases to - i,
    {
        if i > from {
            joined.push(' ');
        }
        let part = &parts[i];
        let ghost start = joined@;
        let mut j: usize = 0;
        while j < part.len()
            invariant
                j <= part.len(),
                joined@ == start + part@.take(j as int),
            decreases part.len() - j,
        {
            joined.push(part[j]);
            j += 1;
        }
        proof {
            let next = all.subrange(from as int, i + 1);
            assert(part@.take(j as int) == part@);
            assert(next.drop_last() == all.subrange(from as int, i as int));
            assert(next.last() == part@);
        }
        i += 1;
    }
    joined
}

/// Whether `c` is one of the ten decimal digits `0` to `9`.
pub open spec fn is_digit(c: char) -> bool {
    '0' <= c <= '9'
}

/// The number that the digit `c` stands for.
pub open spec fn digit_value(c: char) -> nat {
    (c as int - '0' as int) as nat
}

/// The number that a run of decimal digits writes, the most significant digit first.
pub open spec fn decimal_value(digits: Seq<char>) -> nat
    decreases digits.len(),
{
    if digits.len() == 0 {
        0
    } else {
        decimal_value(digits.drop_last()) * 10 + digit_value(digits.last())
    }
}

/// Whether `s` is a run of one or more decimal digits.
pub open spec fn is_decimal(s: Seq<char>) -> bool {
    s.len() > 0 && forall|i: int| 0 <= i < s.len() ==> is_digit(#[trigger] s[i])
}

/// The number that a word writes: an optional `+`, then one or more decimal digits
/// whose value fits in 32 bits. Any other word writes no number.
pub open spec fn number_of(word: Seq<char>) -> Option<u32> {
    let digits = if word.len() > 0 && word[0] == '+' {
        word.drop_first()
    } else {
        word
    };
    if is_decimal(digits) && decimal_value(digits) <= u32::MAX {
        Some(decimal_value(digits) as u32)
    } else {
        None
    }
}

/// Reading more digits never makes the number smaller.
pub proof fn lemma_decimal_value_grows(digits: Seq<char>, k: int)
    requires
        0 <= k <= digits.len(),
    ensures
        decimal_value(digits.take(k)) <= decimal_value(digits),
    decreases digits.len() - k,
{
    if k < digits.len() {
        lemma_decimal_value_grows(digits, k + 1);
        assert(digits.take(k + 1).drop_last() == digits.take(k));
    } else {
        assert(digits.take(k) == digits);
    }
}

/// The number that `word` writes, as [`number_of`] defines it.
pub fn parse_number(word: &Vec<char>) -> (number: Option<u32>)
    ensures
        number == number_of(word@),
{
    let first: usize = if word.len() > 0 && word[0] == '+' {
        1
    } else {
        0
    };
    let ghost digits = word@.skip(first as int);
    proof {
        assert(word@.skip(0) == word@);
        assert(word@.len() > 0 ==> word@.skip(1) == word@.drop_first());
        assert(digits.take(0) == Seq::<char>::empty());
    }
    if first == word.len() {
        return None;
    }
    let mut value: u32 = 0;
    let mut i: usize = first;
    while i < word.len()
        invariant
            first <= i <= word.len(),
            first < word.len(),
            digits == word@.skip(first as int),
            number_of(word@) == if is_decimal(digits) && decimal_value(digits) <= u32::MAX {
                Some(decimal_value(digits) as u32)
            } else {
                None
            },
            forall|j: int| 0 <= j < i - first ==> is_digit(#[trigger] digits[j]),
            value == decimal_value(digits.take(i - first)),
        decreases word.len() - i,
    {
        let c: char = word[i];
        if c < '0' || c > '9' {
            assert(!is_digit(digits[i - first]));
            return None;
        }
        let d: u32 = c as u32 - '0' as u32;
        proof {
            assert(digits[i - first] == c);
            assert(digits.take(i - first + 1).drop_last() == digits.take(i - first));
            assert(digits.take(i - first + 1).last() == c);
            assert(decimal_value(digits.take(i - first + 1)) == value * 10 + d);
            lemma_decimal_value_grows(digits, i - first + 1);
        }
        if value > (u32::MAX - d) / 10 {
            return None;
        }
        value = value * 10 + d;
        i += 1;
    }
    proof {
        assert(digits.take(i - first) == digits);
    }
    Some(value)
}

/// `s` without the white space at its start.
pub open spec fn trim_start(s: Seq<char>) -> Seq<char>
    decreases s.len(),
{
    if s.len() > 0 && white_space(s[0]) {
        trim_start(s.drop_first())
    } else {
        s
    }
}

/// `s` without the white space at its end.
pub open spec fn trim_end(s: Seq<char>) -> Seq<char>
    decreases s.len(),
{
    if s.len() > 0 && white_space(s.last()) {
        trim_end(s.drop_last())
    } else {
        s
    }
}

/// `s` without the white space at its start and at its end.
pub open spec fn trim(s: Seq<char>) -> Seq<char> {
    trim_end(trim_start(s))
}

/// Trimming the start drops exactly the leading run of white space.
pub proof fn lemma_trim_start(s: Seq<char>, k: int)
    requires
        0 <= k <= s.len(),
        forall|j: int| 0 <= j < k ==> white_space(s[j]),
        k < s.len() ==> !white_space(s[k]),
    ensures
        trim_start(s) == s.skip(k),
    decreases s.len(),
{
    if k > 0 {
        lemma_trim_start(s.drop_first(), k - 1);
        assert(s.drop_first().skip(k - 1) == s.skip(k));
    } else {
        assert(s.skip(0) == s);
    }
}

/// Trimming the end drops exactly the trailing run of white space.
pub proof fn lemma_trim_end(s: Seq<char>, k: int)
    requires
        0 <= k <= s.len(),
        forall|j: int| k <= j < s.len() ==> white_space(s[j]),
        k > 0 ==> !white_space(s[k - 1]),
    ensures
        trim_end(s) == s.take(k),
    decreases s.len(),
{
    if k < s.len() {
        lemma_trim_end(s.drop_last(), k);
        assert(s.drop_last().take(k) == s.take(k));
    } else {
        assert(s.take(k) == s);
    }
}

/// `s` without the white space at its start and at its end.
pub fn trimmed(s: &Vec<char>) -> (out: Vec<char>)
    ensures
        out@ == trim(s@),
{
    let mut from: usize = 0;
    while from < s.len() && s[from].is_whitespace()
        invariant
            from <= s.len(),
            forall|j: int| 0 <= j < from ==> white_space(s@[j]),
        decreases s.len() - from,
    {
        from += 1;
    }
    let mut to: usize = s.len();
    while to > from && s[to - 1].is_whitespace()
        invariant
            from <= to <= s.len(),
            forall|j: int| to <= j < s.len() ==> white_space(s@[j]),
        decreases to,
    {
        to -= 1;
    }
    proof {
        lemma_trim_start(s@, from as int);
        lemma_trim_end(s@.skip(from as int), to - from);
        assert(s@.skip(from as int).take(to - from) == s@.subrange(from as int, to as int));
    }
    slice_of(s, from, to)
}

/// The digit that writes `d`, for `d` below ten.
pub open spec fn digit_char(d: nat) -> char {
    (d + '0' as nat) as char
}

/// The decimal numeral of `n`: no sign, no leading zero but for zero itself.
pub open spec fn decimal_text(n: nat) -> Seq<char>
    decreases n,
{
    if n < 10 {
        seq![digit_char(n)]
    } else {
        decimal_text(n / 10).push(digit_char(n % 10))
    }
}

/// The decimal numeral of `n`.
pub fn decimal_of(n: u32) -> (text: Vec<char>)
    ensures
        text@ == decimal_text(n as nat),
    decreases n,
{
    let digit: char = ((n % 10) as u8 + 48u8) as char;
    if n < 10 {
        let mut text: Vec<char> = Vec::new();
        text.push(digit);
        text
    } else {
        let mut text = decimal_of(n / 10);
        text.push(digit);
        text
    }
}

/// The superscript form of a decimal digit; any other character stands for itself.
pub open spec fn superscript(c: char) -> char {
    match c {
        '0' => '⁰',
        '1' => '¹',
        '2' => '²',
        '3' => '³',
        '4' => '⁴',
        '5' => '⁵',
        '6' => '⁶',
        '7' => '⁷',
        '8' => '⁸',
        '9' => '⁹',
        _ => c,
    }
}

/// The superscript form of a decimal digit; any other character is returned as it is.
pub fn superscript_of(c: char) -> (raised: char)
    ensures
        raised == superscript(c),
        !is_digit(c) ==> raised == c,
{
    match c {
        '0' => '⁰',
        '1' => '¹',
        '2' => '²',
        '3' => '³',
        '4' => '⁴',
        '5' => '⁵',
        '6' => '⁶',
        '7' => '⁷',
        '8' => '⁸',
        '9' => '⁹',
        _ => c,
    }
}

/// A text with each of its decimal digits in superscript form.
pub open spec fn superscripts(s: Seq<char>) -> Seq<char> {
    s.map_values(|c: char| superscript(c))
}

/// `s` with each of its decimal digits in superscript form.
pub fn raise_digits(s: &Vec<char>) -> (out: Vec<char>)
    ensures
        out@ == superscripts(s@),
{
    let mut out: Vec<char> = Vec::new();
    let mut i: usize = 0;
    while i < s.len()
        invariant
            i <= s.len(),
            out@ == superscripts(s@.take(i as int)),
        decreases s.len() - i,
    {
        out.push(superscript_of(s[i]));
        proof {
            assert(out@ == superscripts(s@.take(i + 1)));
        }
        i += 1;
    }
    proof {
        assert(s@.take(i as int) == s@);
    }
    out
}

} // verus!
