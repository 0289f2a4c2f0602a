//! Text taken apart: words, numbers, prefixes.
use vstd::prelude::*;

verus! {

/// Calls `String::push`, which appends a character.
pub assume_specification[ String::push ](s: &mut String, c: char)
    ensures
        final(s)@ == old(s)@.push(c),
;

/// The lower-case form of a text.
pub uninterp spec fn lowercase(s: Seq<char>) -> Seq<char>;

/// Calls `str::to_lowercase`, whose result is named [`lowercase`]: the lower-case
/// form of the text by the rules of Unicode, which depends on the text alone.
#[verifier::external_body]
pub(crate) fn lowercased(s: &str) -> (r: String)
    ensures
        r@ == lowercase(s@),
{
    s.to_lowercase()
}

/// Why a text is not a number.
#[derive(Clone, Copy, PartialEq, Eq, Structural, Debug)]
pub enum NumberError {
    Empty,
    InvalidDigit,
    TooLarge,
}

/// The characters of a text.
pub fn chars_of(s: &str) -> (v: Vec<char>)
    ensures
        v@ == s@,
{
    let mut v: Vec<char> = Vec::new();
    for c in it: s.chars()
        invariant
            v@ == s@.take(it.index()),
            it.seq() == s@,
    {
        v.push(c);
        assert(s@.take(it.index() + 1) =~= s@.take(it.index()).push(c));
    }
    assert(s@.take(s@.len() as int) =~= s@);
    v
}

/// The text made of characters.
pub fn text_of(v: &[char]) -> (s: String)
    ensures
        s@ == v@,
{
    let mut s = String::new();
    let mut i: usize = 0;
    assert(v@.take(0) =~= Seq::<char>::empty());
    while i < v.len()
        invariant
            i <= v@.len(),
            s@ == v@.take(i as int),
        decreases v@.len() - i,
    {
        s.push(v[i]);
        assert(v@.take(i as int + 1) =~= v@.take(i as int).push(v@[i as int]));
        i = i + 1;
    }
    assert(v@.take(i as int) =~= v@);
    s
}

/// Appends characters.
pub fn push_all(s: &mut String, v: &[char])
    ensures
        final(s)@ == old(s)@ + v@,
{
    let mut i: usize = 0;
    assert(old(s)@ + v@.take(0) =~= old(s)@);
    while i < v.len()
        invariant
            i <= v@.len(),
            s@ == old(s)@ + v@.take(i as int),
        decreases v@.len() - i,
    {
        s.push(v[i]);
        assert(old(s)@ + v@.take(i as int + 1) =~= (old(s)@ + v@.take(i as int)).push(
            v@[i as int],
        ));
        i = i + 1;
    }
    assert(v@.take(i as int) =~= v@);
}

/// The text made of the characters from `from` to before `to`.
pub fn text_between(v: &[char], from: usize, to: usize) -> (s: String)
    requires
        from <= to <= v@.len(),
    ensures
        s@ == v@.subrange(from as int, to as int),
{
    let mut s = String::new();
    let mut i: usize = from;
    assert(v@.subrange(from as int, from as int) =~= Seq::<char>::empty());
    while i < to
        invariant
            from <= i <= to <= v@.len(),
            s@ == v@.subrange(from as int, i as int),
        decreases to - i,
    {
        s.push(v[i]);
        assert(v@.subrange(from as int, i + 1) =~= v@.subrange(from as int, i as int).push(
            v@[i as int],
        ));
        i = i + 1;
    }
    s
}

/// The characters from `from` to before `to`.
pub fn slice_of(v: &[char], from: usize, to: usize) -> (r: Vec<char>)
    requires
        from <= to <= v@.len(),
    ensures
        r@ == v@.subrange(from as int, to as int),
{
    let mut r: Vec<char> = Vec::new();
    let mut i: usize = from;
    while i < to
        invariant
            from <= i <= to <= v@.len(),
            r@ == v@.subrange(from as int, i as int),
        decreases to - i,
    {
        r.push(v[i]);
        assert(v@.subrange(from as int, i + 1) =~= v@.subrange(from as int, i as int).push(
            v@[i as int],
        ));
        i = i + 1;
    }
    r
}

/// Whether two texts are the same.
pub fn same_text(a: &str, b: &str) -> (r: bool)
    ensures
        r == (a@ == b@),
{
    let x: String = a.to_owned();
    let y: String = b.to_owned();
    x == y
}

/// Whether two lists of characters are the same.
pub fn same_chars(a: &[char], b: &[char]) -> (r: bool)
    ensures
        r == (a@ == b@),
{
    if a.len() != b.len() {
        return false;
    }
    assert(a@.take(b@.len() as int) =~= a@);
    starts_with(a, b)
}

/// Whether a text begins with another one.
pub open spec fn begins(s: Seq<char>, p: Seq<char>) -> bool {
    s.len() >= p.len() && s.take(p.len() as int) == p
}

/// Whether a text begins with another one.
pub fn starts_with(s: &[char], p: &[char]) -> (r: bool)
    ensures
        r == begins(s@, p@),
        r && s@.len() == p@.len() ==> s@ == p@,
{
    if s.len() < p.len() {
        return false;
    }
    let mut i: usize = 0;
    while i < p.len()
        invariant
            i <= p@.len(),
            p@.len() <= s@.len(),
            forall|k: int| 0 <= k < i ==> s@[k] == p@[k],
        decreases p@.len() - i,
    {
        if s[i] != p[i] {
            assert(s@.take(p@.len() as int)[i as int] != p@[i as int]);
            return false;
        }
        i = i + 1;
    }
    assert(s@.take(p@.len() as int) =~= p@);
    if s.len() == p.len() {
        assert(s@ =~= p@);
    }
    true
}

// ---- Where things are ------------------------------------------------------------

/// The first place of a character at or after `i`, or the end.
pub open spec fn next_char(s: Seq<char>, c: char, i: int) -> int
    decreases s.len() - i,
{
    if i < 0 || i >= s.len() {
        s.len() as int
    } else if s[i] == c {
        i
    } else {
        next_char(s, c, i + 1)
    }
}

pub(crate) proof fn next_char_bounds(s: Seq<char>, c: char, i: int)
    requires
        0 <= i <= s.len(),
    ensures
        i <= next_char(s, c, i) <= s.len(),
    decreases s.len() - i,
{
    if i < s.len() && s[i] != c {
        next_char_bounds(s, c, i + 1);
    }
}

/// The first place of a character at or after `i`, or the end.
pub fn find_char(s: &[char], c: char, i: usize) -> (r: usize)
    requires
        i <= s@.len(),
    ensures
        r == next_char(s@, c, i as int),
        i <= r <= s@.len(),
        r < s@.len() ==> s@[r as int] == c,
        forall|k: int| i <= k < r ==> s@[k] != c,
{
    let mut k: usize = i;
    while k < s.len() && s[k] != c
        invariant
            i <= k <= s@.len(),
            next_char(s@, c, i as int) == next_char(s@, c, k as int),
            forall|j: int| i <= j < k ==> s@[j] != c,
        decreases s@.len() - k,
    {
        k = k + 1;
    }
    k
}

/// Whether a character separates words.
pub open spec fn is_space(c: char) -> bool {
    ||| '\u{9}' <= c <= '\u{d}'
    ||| c == '\u{20}'
    ||| c == '\u{85}'
    ||| c == '\u{a0}'
    ||| c == '\u{1680}'
    ||| '\u{2000}' <= c <= '\u{200a}'
    ||| c == '\u{2028}'
    ||| c == '\u{2029}'
    ||| c == '\u{202f}'
    ||| c == '\u{205f}'
    ||| c == '\u{3000}'
}

/// Whether a character separates words.
pub fn separates(c: char) -> (r: bool)
    ensures
        r == is_space(c),
{
    ('\u{9}' <= c && c <= '\u{d}') || c == '\u{20}' || c == '\u{85}' || c == '\u{a0}' || c
        == '\u{1680}' || ('\u{2000}' <= c && c <= '\u{200a}') || c == '\u{2028}' || c == '\u{2029}'
        || c == '\u{202f}' || c == '\u{205f}' || c == '\u{3000}'
}

/// Where the next word begins, at or after `i`.
pub open spec fn word_start(s: Seq<char>, i: int) -> int
    decreases s.len() - i,
{
    if i < 0 || i >= s.len() {
        s.len() as int
    } else if !is_space(s[i]) {
        i
    } else {
        word_start(s, i + 1)
    }
}

/// Where the word at `i` ends.
pub open spec fn word_end(s: Seq<char>, i: int) -> int
    decreases s.len() - i,
{
    if i < 0 || i >= s.len() {
        s.len() as int
    } else if is_space(s[i]) {
        i
    } else {
        word_end(s, i + 1)
    }
}

/// The second word of a text.
pub open spec fn second_word(s: Seq<char>) -> Option<Seq<char>> {
    let a = word_start(s, word_end(s, word_start(s, 0)));
    if a < s.len() {
        Some(s.subrange(a, word_end(s, a)))
    } else {
        None
    }
}

fn find_word(s: &[char], i: usize) -> (r: usize)
    requires
        i <= s@.len(),
    ensures
        r == word_start(s@, i as int),
        i <= r <= s@.len(),
{
    let mut k: usize = i;
    while k < s.len() && separates(s[k])
        invariant
            i <= k <= s@.len(),
            word_start(s@, i as int) == word_start(s@, k as int),
        decreases s@.len() - k,
    {
        k = k + 1;
    }
    k
}

fn skip_word(s: &[char], i: usize) -> (r: usize)
    requires
        i <= s@.len(),
    ensures
        r == word_end(s@, i as int),
        i <= r <= s@.len(),
{
    let mut k: usize = i;
    while k < s.len() && !separates(s[k])
        invariant
            i <= k <= s@.len(),
            word_end(s@, i as int) == word_end(s@, k as int),
        decreases s@.len() - k,
    {
        k = k + 1;
    }
    k
}

/// The second word of a text.
pub fn word_two(s: &[char]) -> (r: Option<String>)
    ensures
        match r {
            Some(w) => second_word(s@) == Some(w@),
            None => second_word(s@) is None,
        },
{
    let first: usize = find_word(s, 0);
    let end: usize = skip_word(s, first);
    let a: usize = find_word(s, end);
    if a < s.len() {
        let b: usize = skip_word(s, a);
        Some(text_between(s, a, b))
    } else {
        None
    }
}

/// Where the last word ends, before `i`.
pub open spec fn last_end(s: Seq<char>, i: int) -> int
    decreases i,
{
    if i <= 0 || i > s.len() {
        0
    } else if !is_space(s[i - 1]) {
        i
    } else {
        last_end(s, i - 1)
    }
}

/// A text without what separates words at its ends.
pub open spec fn trimmed(s: Seq<char>) -> Seq<char> {
    let a = word_start(s, 0);
    let b = last_end(s, s.len() as int);
    if a < b {
        s.subrange(a, b)
    } else {
        Seq::empty()
    }
}

/// A text without what separates words at its ends.
pub fn trim(s: &[char]) -> (r: Vec<char>)
    ensures
        r@ == trimmed(s@),
{
    let a: usize = find_word(s, 0);
    let mut b: usize = s.len();
    while b > 0 && separates(s[b - 1])
        invariant
            b <= s@.len(),
            last_end(s@, s@.len() as int) == last_end(s@, b as int),
        decreases b,
    {
        b = b - 1;
    }
    if a < b {
        slice_of(s, a, b)
    } else {
        Vec::new()
    }
}

// ---- Numbers ---------------------------------------------------------------------

/// Whether a character is a decimal digit.
pub open spec fn is_digit(c: char) -> bool {
    '0' <= c <= '9'
}

/// The number that the digits from `i` on make after `acc`, up to `max`.
pub open spec fn digits_from(s: Seq<char>, i: int, acc: int, max: int) -> Result<int, NumberError>
    decreases s.len() - i,
{
    if i < 0 || i >= s.len() {
        Ok(acc)
    } else if !is_digit(s[i]) {
        Err(NumberError::InvalidDigit)
    } else if 10 * acc + (s[i] as int - '0' as int) > max {
        Err(NumberError::TooLarge)
    } else {
        digits_from(s, i + 1, 10 * acc + (s[i] as int - '0' as int), max)
    }
}

/// The number that a text stands for, up to `max`: decimal digits, perhaps after a
/// plus sign.
pub open spec fn number_of(s: Seq<char>, max: int) -> Result<int, NumberError> {
    if s.len() == 0 {
        Err(NumberError::Empty)
    } else if s[0] == '+' {
        if s.len() == 1 {
            Err(NumberError::InvalidDigit)
        } else {
            digits_from(s, 1, 0, max)
        }
    } else {
        digits_from(s, 0, 0, max)
    }
}

/// The number that a text stands for, up to `max`.
pub fn parse_number(s: &[char], max: u64) -> (r: Result<u64, NumberError>)
    ensures
        match r {
            Ok(n) => number_of(s@, max as int) == Ok::<int, NumberError>(n as int) && n <= max,
            Err(e) => number_of(s@, max as int) == Err::<int, NumberError>(e),
        },
{
    if s.len() == 0 {
        return Err(NumberError::Empty);
    }
    let mut i: usize = 0;
    if s[0] == '+' {
        if s.len() == 1 {
            return Err(NumberError::InvalidDigit);
        }
        i = 1;
    }
    let mut acc: u64 = 0;
    while i < s.len()
        invariant
            i <= s@.len(),
            acc <= max,
            number_of(s@, max as int) == digits_from(s@, i as int, acc as int, max as int),
        decreases s@.len() - i,
    {
        let c: char = s[i];
        if c < '0' || c > '9' {
            return Err(NumberError::InvalidDigit);
        }
        let d: u64 = (c as u32 - '0' as u32) as u64;
        if acc > max / 10 || (acc == max / 10 && d > max % 10) {
            return Err(NumberError::TooLarge);
        }
        acc = 10 * acc + d;
        i = i + 1;
    }
    Ok(acc)
}

/// The number that a text stands for: decimal digits, perhaps after a sign.
pub open spec fn signed_of(s: Seq<char>) -> Option<int> {
    if s.len() > 0 && s[0] == '-' {
        if s.len() > 1 && is_digit(s[1]) {
            match number_of(s.subrange(1, s.len() as int), -(i32::MIN as int)) {
                Ok(n) => Some(-n),
                Err(_) => None,
            }
        } else {
            None
        }
    } else {
        match number_of(s, i32::MAX as int) {
            Ok(n) => Some(n),
            Err(_) => None,
        }
    }
}

/// The number that a text stands for: decimal digits, perhaps after a sign.
pub fn parse_signed(s: &[char]) -> (r: Option<i32>)
    ensures
        match r {
            Some(n) => signed_of(s@) == Some(n as int),
            None => signed_of(s@) is None,
        },
{
    if s.len() > 0 && s[0] == '-' {
        if s.len() > 1 && s[1] >= '0' && s[1] <= '9' {
            let rest = slice_of(s, 1, s.len());
            match parse_number(rest.as_slice(), 2147483648) {
                Ok(n) => Some((-(n as i64)) as i32),
                Err(_) => None,
            }
        } else {
            None
        }
    } else {
        match parse_number(s, 2147483647) {
            Ok(n) => Some(n as i32),
            Err(_) => None,
        }
    }
}

/// The decimal digits of a number.
pub open spec fn decimal(n: nat) -> Seq<char>
    decreases n,
{
    if n < 10 {
        seq![('0' as int + n) as char]
    } else {
        decimal(n / 10).push(('0' as int + n % 10) as char)
    }
}

/// Appends the decimal digits of a number.
pub fn push_number(s: &mut String, n: u64)
    ensures
        final(s)@ == old(s)@ + decimal(n as nat),
    decreases n,
{
    if n >= 10 {
        push_number(s, n / 10);
    }
    let d: u8 = (n % 10) as u8;
    s.push((48 + d) as char);
    assert(s@ =~= old(s)@ + decimal(n as nat));
}

// ---- Laws --------------------------------------------------------------------------

proof fn digits_run_on(s: Seq<char>, i: int, acc: int, c: char, max: int)
    requires
        0 <= i <= s.len(),
        digits_from(s, i, acc, max) is Ok,
    ensures
        digits_from(s.push(c), i, acc, max) == digits_from(
            s.push(c),
            s.len() as int,
            digits_from(s, i, acc, max)->Ok_0,
            max,
        ),
    decreases s.len() - i,
{
    if i < s.len() {
        digits_run_on(s, i + 1, 10 * acc + (s[i] as int - '0' as int), c, max);
    }
}

proof fn digits_are_read(n: nat, max: int)
    requires
        n <= max,
    ensures
        decimal(n).len() > 0,
        is_digit(decimal(n)[0]),
        digits_from(decimal(n), 0, 0, max) == Ok::<int, NumberError>(n as int),
    decreases n,
{
    let c = ('0' as int + n % 10) as char;
    assert(c as int == '0' as int + n % 10);
    if n < 10 {
        reveal_with_fuel(digits_from, 2);
    } else {
        digits_are_read(n / 10, max);
        digits_run_on(decimal(n / 10), 0, 0, c, max);
        reveal_with_fuel(digits_from, 2);
    }
}

/// A number written out reads back as itself.
pub proof fn numbers_read_back(n: nat, max: int)
    requires
        n <= max,
    ensures
        number_of(decimal(n), max) == Ok::<int, NumberError>(n as int),
{
    digits_are_read(n, max);
}

/// Trimming twice is trimming once: what is left begins and ends with a character
/// of a word.
pub proof fn trimmed_text_is_trimmed(s: Seq<char>)
    requires
        trimmed(s).len() > 0,
    ensures
        !is_space(trimmed(s).first()),
        !is_space(trimmed(s).last()),
{
    word_start_is_a_word(s, 0);
    last_end_is_a_word(s, s.len() as int);
}

proof fn word_start_is_a_word(s: Seq<char>, i: int)
    requires
        0 <= i <= s.len(),
    ensures
        i <= word_start(s, i) <= s.len(),
        word_start(s, i) < s.len() ==> !is_space(s[word_start(s, i)]),
    decreases s.len() - i,
{
    if i < s.len() && is_space(s[i]) {
        word_start_is_a_word(s, i + 1);
    }
}

proof fn last_end_is_a_word(s: Seq<char>, i: int)
    requires
        0 <= i <= s.len(),
    ensures
        0 <= last_end(s, i) <= i,
        last_end(s, i) > 0 ==> !is_space(s[last_end(s, i) - 1]),
    decreases i,
{
    if i > 0 && is_space(s[i - 1]) {
        last_end_is_a_word(s, i - 1);
    }
}

} // verus!
