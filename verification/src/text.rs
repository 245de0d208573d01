//! Text: what the rest of the crate needs to take strings apart and to build them.
//!
//! Every contract speaks of a string by its view, the sequence of its characters.
use vstd::prelude::*;

verus! {

/// `String::push` appends one character to the end of the string and changes nothing else.
pub assume_specification[ String::push ](s: &mut String, c: char)
    ensures
        final(s)@ == old(s)@.push(c),
;

/// The character sequences of a sequence of strings.
pub open spec fn texts(v: Seq<String>) -> Seq<Seq<char>> {
    Seq::new(v.len(), |i: int| v[i]@)
}

/// The character sequence of an optional string.
pub open spec fn optional(s: Option<String>) -> Option<Seq<char>> {
    match s {
        Some(s) => Some(s@),
        None => None,
    }
}

/// A result with the characters of its message.
pub open spec fn told<T>(r: Result<T, String>) -> Result<T, Seq<char>> {
    match r {
        Ok(v) => Ok(v),
        Err(message) => Err(message@),
    }
}

// ---------------------------------------------------------------------------
// Characters
// ---------------------------------------------------------------------------
/// Unicode's `White_Space` property.
pub open spec fn is_space(c: char) -> bool {
    ||| '\u{9}' <= c <= '\u{d}'
    ||| c == ' '
    ||| c == '\u{85}'
    ||| c == '\u{a0}'
    ||| c == '\u{1680}'
    ||| '\u{2000}' <= c <= '\u{200a}'
    ||| c == '\u{2028}'
    ||| c == '\u{2029}'
    ||| c == '\u{202f}'
    ||| c == '\u{205f}'
    ||| c == '\u{3000}'
}

/// Unicode's general category `Cc`: the two blocks of control codes.
pub open spec fn is_control(c: char) -> bool {
    c <= '\u{1f}' || '\u{7f}' <= c <= '\u{9f}'
}

/// The decimal digits of ASCII.
pub open spec fn is_digit(c: char) -> bool {
    '0' <= c <= '9'
}

/// The upper case of an ASCII letter; any other character stays as it is.
pub open spec fn upper(c: char) -> char {
    if 'a' <= c <= 'z' {
        (c as u32 - 32) as char
    } else {
        c
    }
}

/// What `c` counts for as a digit, in either case; 36 if it is no digit in any base.
pub open spec fn digit(c: char) -> nat {
    if '0' <= c <= '9' {
        (c as u32 - '0' as u32) as nat
    } else if 'a' <= c <= 'z' {
        (c as u32 - 'a' as u32 + 10) as nat
    } else if 'A' <= c <= 'Z' {
        (c as u32 - 'A' as u32 + 10) as nat
    } else {
        36
    }
}

/// The digit that counts for `d`, letters in the case asked for.
pub open spec fn digit_char(d: nat, capital: bool) -> char
    recommends
        d < 36,
{
    if d < 10 {
        ('0' as u32 + d) as char
    } else if capital {
        ('A' as u32 + d - 10) as char
    } else {
        ('a' as u32 + d - 10) as char
    }
}

pub fn space(c: char) -> (r: bool)
    ensures
        r == is_space(c),
{
    ('\u{9}' <= c && c <= '\u{d}') || c == ' ' || c == '\u{85}' || c == '\u{a0}' || c == '\u{1680}'
        || ('\u{2000}' <= c && c <= '\u{200a}') || c == '\u{2028}' || c == '\u{2029}' || c
        == '\u{202f}' || c == '\u{205f}' || c == '\u{3000}'
}

pub fn control(c: char) -> (r: bool)
    ensures
        r == is_control(c),
{
    c <= '\u{1f}' || ('\u{7f}' <= c && c <= '\u{9f}')
}

fn to_upper(c: char) -> (r: char)
    ensures
        r == upper(c),
{
    if 'a' <= c && c <= 'z' {
        (c as u8 - 32) as char
    } else {
        c
    }
}

pub fn to_digit(c: char) -> (r: u32)
    ensures
        r == digit(c),
        r <= 36,
{
    if '0' <= c && c <= '9' {
        c as u32 - '0' as u32
    } else if 'a' <= c && c <= 'z' {
        c as u32 - 'a' as u32 + 10
    } else if 'A' <= c && c <= 'Z' {
        c as u32 - 'A' as u32 + 10
    } else {
        36
    }
}

pub fn from_digit(d: u8, capital: bool) -> (r: char)
    requires
        d < 36,
    ensures
        r == digit_char(d as nat, capital),
{
    if d < 10 {
        (48 + d) as char
    } else if capital {
        (65 + (d - 10)) as char
    } else {
        (97 + (d - 10)) as char
    }
}

// ---------------------------------------------------------------------------
// Whole strings
// ---------------------------------------------------------------------------
/// The characters of `s`.
pub fn to_chars(s: &str) -> (r: Vec<char>)
    ensures
        r@ == s@,
{
    let mut r: Vec<char> = Vec::new();
    for c in it: s.chars()
        invariant
            r@ == it.seq().take(it.index()),
            it.seq() == s@,
    {
        r.push(c);
    }
    r
}

/// The string of the characters from `from` up to, not with, `to`.
pub fn from_chars(v: &[char], from: usize, to: usize) -> (r: String)
    requires
        from <= to <= v@.len(),
    ensures
        r@ == v@.subrange(from as int, to as int),
{
    let mut r: String = String::new();
    for i in from..to
        invariant
            from <= to <= v@.len(),
            r@ == v@.subrange(from as int, i as int),
    {
        r.push(v[i]);
    }
    r
}

/// Whether `a` and `b` hold the same characters.
pub fn same(a: &str, b: &str) -> (r: bool)
    ensures
        r == (a@ == b@),
{
    a.to_owned() == b.to_owned()
}

/// `a` with `b` behind it.
pub fn joined_pair(a: &str, b: &str) -> (r: String)
    ensures
        r@ == a@ + b@,
{
    let mut r: String = a.to_owned();
    r.append(b);
    r
}

/// `s` begins with `prefix`.
pub open spec fn has_prefix(s: Seq<char>, prefix: Seq<char>) -> bool {
    prefix.len() <= s.len() && s.take(prefix.len() as int) == prefix
}

pub fn starts_with(s: &str, prefix: &str) -> (r: bool)
    ensures
        r == has_prefix(s@, prefix@),
{
    let a: Vec<char> = to_chars(s);
    let b: Vec<char> = to_chars(prefix);
    if b.len() > a.len() {
        return false;
    }
    for i in 0..b.len()
        invariant
            a@ == s@,
            b@ == prefix@,
            b@.len() <= a@.len(),
            forall|j: int| 0 <= j < i ==> a@[j] == b@[j],
    {
        if a[i] != b[i] {
            assert(s@.take(prefix@.len() as int)[i as int] != prefix@[i as int]);
            return false;
        }
    }
    assert(s@.take(prefix@.len() as int) =~= prefix@);
    true
}

/// What stands behind `prefix`, if `s` begins with it.
pub open spec fn without_prefix(s: Seq<char>, prefix: Seq<char>) -> Option<Seq<char>> {
    if has_prefix(s, prefix) {
        Some(s.skip(prefix.len() as int))
    } else {
        None
    }
}

pub fn strip_prefix(s: &str, prefix: &str) -> (r: Option<String>)
    ensures
        optional(r) == without_prefix(s@, prefix@),
{
    if starts_with(s, prefix) {
        let all: Vec<char> = to_chars(s);
        let k: usize = prefix.unicode_len();
        let rest: String = from_chars(&all, k, all.len());
        assert(rest@ =~= s@.skip(k as int));
        Some(rest)
    } else {
        None
    }
}

// ---------------------------------------------------------------------------
// Taking text apart
// ---------------------------------------------------------------------------
/// The pieces of `s` between the separators, in order: always one more than there are separators.
pub open spec fn pieces(s: Seq<char>, separator: char) -> Seq<Seq<char>>
    decreases s.len(),
{
    if s.len() == 0 {
        seq![Seq::empty()]
    } else {
        let before = pieces(s.drop_last(), separator);
        if s.last() == separator {
            before.push(Seq::empty())
        } else {
            before.drop_last().push(before.last().push(s.last()))
        }
    }
}

pub fn split(s: &str, separator: char) -> (r: Vec<String>)
    ensures
        texts(r@) == pieces(s@, separator),
{
    let all: Vec<char> = to_chars(s);
    let mut r: Vec<String> = Vec::new();
    let mut piece: String = String::new();
    assert(texts(r@).push(piece@) =~= pieces(s@.take(0), separator));
    for i in 0..all.len()
        invariant
            all@ == s@,
            texts(r@).push(piece@) == pieces(s@.take(i as int), separator),
    {
        let ghost before = texts(r@).push(piece@);
        assert(s@.take(i + 1).drop_last() =~= s@.take(i as int));
        if all[i] == separator {
            r.push(piece);
            piece = String::new();
            assert(texts(r@) =~= before);
        } else {
            piece.push(all[i]);
            assert(before.drop_last() =~= texts(r@));
        }
    }
    assert(s@.take(s@.len() as int) =~= s@);
    let ghost before = texts(r@).push(piece@);
    r.push(piece);
    assert(texts(r@) =~= before);
    r
}

/// A line without the carriage return that may stand at its end.
pub open spec fn without_return(s: Seq<char>) -> Seq<char> {
    if s.len() > 0 && s.last() == '\r' {
        s.drop_last()
    } else {
        s
    }
}

/// The lines of `s`: each ends in a line feed, or in a carriage return and a line feed, and none
/// of these belong to it. What stands behind the last line feed is a line if it is not empty.
pub open spec fn lines_of(s: Seq<char>) -> Seq<Seq<char>> {
    let parts = pieces(s, '\n');
    let ended = parts.drop_last().map_values(|line: Seq<char>| without_return(line));
    if parts.last().len() == 0 {
        ended
    } else {
        ended.push(parts.last())
    }
}

/// There is always at least one piece.
pub proof fn lemma_pieces_not_empty(s: Seq<char>, separator: char)
    ensures
        pieces(s, separator).len() > 0,
    decreases s.len(),
{
    if s.len() > 0 {
        lemma_pieces_not_empty(s.drop_last(), separator);
    }
}

fn chop_return(s: &str) -> (r: String)
    ensures
        r@ == without_return(s@),
{
    let all: Vec<char> = to_chars(s);
    let n: usize = all.len();
    if n > 0 && all[n - 1] == '\r' {
        let r: String = from_chars(&all, 0, n - 1);
        assert(r@ =~= s@.drop_last());
        r
    } else {
        s.to_owned()
    }
}

pub fn lines(s: &str) -> (r: Vec<String>)
    ensures
        texts(r@) == lines_of(s@),
{
    let parts: Vec<String> = split(s, '\n');
    proof {
        lemma_pieces_not_empty(s@, '\n');
        assert(texts(parts@).len() == parts@.len());
    }
    let n: usize = parts.len() - 1;
    let mut r: Vec<String> = Vec::new();
    let ghost ended = texts(parts@).drop_last().map_values(
        |line: Seq<char>| without_return(line),
    );
    for i in 0..n
        invariant
            n == parts@.len() - 1,
            ended == texts(parts@).drop_last().map_values(
                |line: Seq<char>| without_return(line),
            ),
            texts(r@) =~= ended.take(i as int),
    {
        let line: String = chop_return(parts[i].as_str());
        assert(texts(parts@)[i as int] == parts@[i as int]@);
        assert(line@ == ended[i as int]);
        let ghost before = texts(r@);
        r.push(line);
        assert(texts(r@) =~= before.push(line@));
    }
    assert(ended.take(n as int) =~= ended);
    if !parts[n].as_str().is_empty() {
        r.push(parts[n].clone());
        assert(texts(r@) =~= ended.push(parts@[n as int]@));
    }
    r
}

/// `s` from its first character that is no white space.
pub open spec fn trimmed_start(s: Seq<char>) -> Seq<char>
    decreases s.len(),
{
    if s.len() > 0 && is_space(s[0]) {
        trimmed_start(s.skip(1))
    } else {
        s
    }
}

/// `s` up to its last character that is no white space.
pub open spec fn trimmed_end(s: Seq<char>) -> Seq<char>
    decreases s.len(),
{
    if s.len() > 0 && is_space(s.last()) {
        trimmed_end(s.drop_last())
    } else {
        s
    }
}

/// `s` without the white space at either end.
pub open spec fn trimmed(s: Seq<char>) -> Seq<char> {
    trimmed_end(trimmed_start(s))
}

/// The index of the first character that is no white space.
fn count_leading_space(all: &[char]) -> (k: usize)
    ensures
        k <= all@.len(),
        trimmed_start(all@) == all@.skip(k as int),
{
    let n: usize = all.len();
    let mut k: usize = 0;
    assert(all@.skip(0) =~= all@);
    while k < n && space(all[k])
        invariant
            n == all@.len(),
            k <= n,
            trimmed_start(all@) == trimmed_start(all@.skip(k as int)),
        decreases n - k,
    {
        assert(all@.skip(k as int).skip(1) =~= all@.skip(k + 1));
        k += 1;
    }
    k
}

pub fn trim(s: &str) -> (r: String)
    ensures
        r@ == trimmed(s@),
{
    let all: Vec<char> = to_chars(s);
    let k: usize = count_leading_space(&all);
    let mut n: usize = all.len();
    assert(all@.subrange(k as int, n as int) =~= all@.skip(k as int));
    while n > k && space(all[n - 1])
        invariant
            k <= n <= all@.len(),
            trimmed_end(all@.skip(k as int)) == trimmed_end(all@.subrange(k as int, n as int)),
        decreases n,
    {
        assert(all@.subrange(k as int, n as int).drop_last() =~= all@.subrange(
            k as int,
            n - 1,
        ));
        n -= 1;
    }
    from_chars(&all, k, n)
}

/// The characters of `s` before its first white space.
pub open spec fn up_to_space(s: Seq<char>) -> Seq<char>
    decreases s.len(),
{
    if s.len() == 0 || is_space(s[0]) {
        Seq::empty()
    } else {
        seq![s[0]] + up_to_space(s.skip(1))
    }
}

/// The first word of `s`, if it holds more than white space.
pub open spec fn first_word_of(s: Seq<char>) -> Option<Seq<char>> {
    let rest = trimmed_start(s);
    if rest.len() == 0 {
        None
    } else {
        Some(up_to_space(rest))
    }
}

pub fn first_word(s: &str) -> (r: Option<String>)
    ensures
        optional(r) == first_word_of(s@),
{
    let all: Vec<char> = to_chars(s);
    let k: usize = count_leading_space(&all);
    let n: usize = all.len();
    if k == n {
        return None;
    }
    let mut word: String = String::new();
    let mut i: usize = k;
    assert(word@ + up_to_space(all@.skip(k as int)) =~= up_to_space(all@.skip(k as int)));
    while i < n && !space(all[i])
        invariant
            k <= i <= n,
            n == all@.len(),
            word@ + up_to_space(all@.skip(i as int)) == up_to_space(all@.skip(k as int)),
        decreases n - i,
    {
        let ghost before = word@;
        let ghost rest = all@.skip(i as int);
        assert(rest.skip(1) =~= all@.skip(i + 1));
        word.push(all[i]);
        assert(before + (seq![rest[0]] + up_to_space(rest.skip(1))) =~= word@ + up_to_space(
            rest.skip(1),
        ));
        i += 1;
    }
    assert(word@ + up_to_space(all@.skip(i as int)) =~= word@);
    Some(word)
}

/// The index of the first `c` in `s`; the length of `s` if there is none.
pub open spec fn position(s: Seq<char>, c: char) -> int
    decreases s.len(),
{
    if s.len() == 0 || s[0] == c {
        0
    } else {
        1 + position(s.skip(1), c)
    }
}

/// `position` finds `c` at the index that it gives, and nowhere before it.
pub proof fn lemma_position(s: Seq<char>, c: char)
    ensures
        0 <= position(s, c) <= s.len(),
        position(s, c) < s.len() ==> s[position(s, c)] == c,
        forall|i: int| 0 <= i < position(s, c) ==> s[i] != c,
    decreases s.len(),
{
    if s.len() > 0 && s[0] != c {
        lemma_position(s.skip(1), c);
        assert forall|i: int| 0 <= i < position(s, c) implies s[i] != c by {
            if i > 0 {
                assert(s[i] == s.skip(1)[i - 1]);
            }
        }
    }
}

/// An index at which `c` stands, and before which it does not, is its position.
pub proof fn lemma_position_is(s: Seq<char>, c: char, k: int)
    requires
        0 <= k <= s.len(),
        k < s.len() ==> s[k] == c,
        forall|i: int| 0 <= i < k ==> s[i] != c,
    ensures
        position(s, c) == k,
{
    lemma_position(s, c);
}

pub fn find(all: &[char], c: char) -> (k: usize)
    ensures
        k == position(all@, c),
        k <= all@.len(),
{
    let n: usize = all.len();
    let mut k: usize = 0;
    while k < n && all[k] != c
        invariant
            n == all@.len(),
            k <= n,
            forall|i: int| 0 <= i < k ==> all@[i] != c,
        decreases n - k,
    {
        k += 1;
    }
    proof {
        lemma_position_is(all@, c, k as int);
    }
    k
}

// ---------------------------------------------------------------------------
// Building text
// ---------------------------------------------------------------------------
/// `c`, `n` times over; nothing if `n` is not positive.
pub open spec fn run_of(c: char, n: int) -> Seq<char> {
    Seq::new(if n > 0 { n as nat } else { 0 }, |i: int| c)
}

pub fn repeat(c: char, n: usize) -> (r: String)
    ensures
        r@ == run_of(c, n as int),
{
    let mut r: String = String::new();
    for i in 0..n
        invariant
            r@ =~= run_of(c, i as int),
    {
        r.push(c);
    }
    r
}

/// `s` at the left of a column of `width` characters; unchanged if it is wider.
pub open spec fn at_left(s: Seq<char>, width: int) -> Seq<char> {
    s + run_of(' ', width - s.len())
}

/// `s` at the right of a column of `width` characters; unchanged if it is wider.
pub open spec fn at_right(s: Seq<char>, width: int) -> Seq<char> {
    run_of(' ', width - s.len()) + s
}

fn missing(s: &str, width: usize) -> (r: String)
    ensures
        r@ == run_of(' ', width - s@.len()),
{
    let n: usize = s.unicode_len();
    if n < width {
        repeat(' ', width - n)
    } else {
        let r: String = String::new();
        assert(r@ =~= run_of(' ', width - n));
        r
    }
}

pub fn left(s: &str, width: usize) -> (r: String)
    ensures
        r@ == at_left(s@, width as int),
{
    joined_pair(s, missing(s, width).as_str())
}

pub fn right(s: &str, width: usize) -> (r: String)
    ensures
        r@ == at_right(s@, width as int),
{
    joined_pair(missing(s, width).as_str(), s)
}

/// The texts one behind the other, with `separator` between each two.
pub open spec fn joined(parts: Seq<Seq<char>>, separator: Seq<char>) -> Seq<char>
    decreases parts.len(),
{
    if parts.len() == 0 {
        Seq::empty()
    } else if parts.len() == 1 {
        parts[0]
    } else {
        joined(parts.drop_last(), separator) + separator + parts.last()
    }
}

pub fn join(parts: &[String], separator: &str) -> (r: String)
    ensures
        r@ == joined(texts(parts@), separator@),
{
    let mut r: String = String::new();
    for i in 0..parts.len()
        invariant
            r@ =~= joined(texts(parts@).take(i as int), separator@),
    {
        let ghost all = texts(parts@);
        assert(all.take(i + 1).drop_last() =~= all.take(i as int));
        if i > 0 {
            r.append(separator);
        }
        r.append(parts[i].as_str());
    }
    assert(texts(parts@).take(parts@.len() as int) =~= texts(parts@));
    r
}

/// `s` with each `from` replaced by the text `to`.
pub open spec fn replaced(s: Seq<char>, from: char, to: Seq<char>) -> Seq<char>
    decreases s.len(),
{
    if s.len() == 0 {
        Seq::empty()
    } else if s.last() == from {
        replaced(s.drop_last(), from, to) + to
    } else {
        replaced(s.drop_last(), from, to).push(s.last())
    }
}

pub fn replace(s: &str, from: char, to: &str) -> (r: String)
    ensures
        r@ == replaced(s@, from, to@),
{
    let all: Vec<char> = to_chars(s);
    let mut r: String = String::new();
    for i in 0..all.len()
        invariant
            all@ == s@,
            r@ == replaced(s@.take(i as int), from, to@),
    {
        assert(s@.take(i + 1).drop_last() =~= s@.take(i as int));
        if all[i] == from {
            r.append(to);
        } else {
            r.push(all[i]);
        }
    }
    assert(s@.take(s@.len() as int) =~= s@);
    r
}

/// `s` with each ASCII letter in its upper case.
pub open spec fn in_capitals(s: Seq<char>) -> Seq<char> {
    s.map_values(|c: char| upper(c))
}

pub fn capitals(s: &str) -> (r: String)
    ensures
        r@ == in_capitals(s@),
{
    let all: Vec<char> = to_chars(s);
    let mut r: String = String::new();
    for i in 0..all.len()
        invariant
            all@ == s@,
            r@ =~= in_capitals(s@).take(i as int),
    {
        r.push(to_upper(all[i]));
    }
    assert(in_capitals(s@).take(s@.len() as int) =~= in_capitals(s@));
    r
}

/// Whether `a` and `b` differ at most in the case of ASCII letters.
pub fn same_in_capitals(a: &str, b: &str) -> (r: bool)
    ensures
        r == (in_capitals(a@) == in_capitals(b@)),
{
    same(capitals(a).as_str(), capitals(b).as_str())
}

// ---------------------------------------------------------------------------
// Laws
// ---------------------------------------------------------------------------
/// The pieces of a text hold no separator, and with separators between them they make up the text.
pub proof fn pieces_make_up_the_text(s: Seq<char>, separator: char)
    ensures
        joined(pieces(s, separator), seq![separator]) == s,
        forall|i: int, k: int|
            0 <= i < pieces(s, separator).len() && 0 <= k < pieces(s, separator)[i].len()
                ==> #[trigger] pieces(s, separator)[i][k] != separator,
    decreases s.len(),
{
    let parts = pieces(s, separator);
    if s.len() == 0 {
        assert(joined(parts, seq![separator]) =~= s);
    } else {
        let front = s.drop_last();
        let before = pieces(front, separator);
        pieces_make_up_the_text(front, separator);
        lemma_pieces_not_empty(front, separator);
        if s.last() == separator {
            assert(parts.drop_last() =~= before);
            assert(joined(parts, seq![separator]) =~= front + seq![separator]);
        } else {
            let last = before.last().push(s.last());
            assert(parts.drop_last() =~= before.drop_last());
            assert(parts.last() == last);
            if before.len() == 1 {
                assert(joined(parts, seq![separator]) == last);
            } else {
                assert(joined(parts, seq![separator]) =~= (joined(
                    before.drop_last(),
                    seq![separator],
                ) + seq![separator] + before.last()).push(s.last()));
            }
        }
        assert(s =~= front.push(s.last()));
        assert forall|i: int, k: int|
            0 <= i < parts.len() && 0 <= k < parts[i].len() implies #[trigger] parts[i][k]
            != separator by {
            if i < before.len() - 1 || s.last() == separator && i < before.len() {
                assert(parts[i] == before[i]);
                assert(before[i][k] != separator);
            } else if s.last() != separator && k < before.last().len() {
                assert(before[before.len() - 1][k] != separator);
            }
        }
    }
}

proof fn lemma_trimmed_start(s: Seq<char>)
    ensures
        trimmed_start(s).len() > 0 ==> !is_space(trimmed_start(s)[0]),
    decreases s.len(),
{
    if s.len() > 0 && is_space(s[0]) {
        lemma_trimmed_start(s.skip(1));
    }
}

proof fn lemma_trimmed_end(s: Seq<char>)
    ensures
        trimmed_end(s).len() <= s.len(),
        trimmed_end(s).len() > 0 ==> !is_space(trimmed_end(s).last()) && trimmed_end(s)[0] == s[0],
    decreases s.len(),
{
    if s.len() > 0 && is_space(s.last()) {
        lemma_trimmed_end(s.drop_last());
    }
}

/// A trimmed text neither begins nor ends with white space, and trimming it again changes nothing.
pub proof fn trimmed_has_no_space_at_its_ends(s: Seq<char>)
    ensures
        trimmed(s).len() > 0 ==> !is_space(trimmed(s)[0]) && !is_space(trimmed(s).last()),
        trimmed(trimmed(s)) == trimmed(s),
{
    lemma_trimmed_start(s);
    lemma_trimmed_end(trimmed_start(s));
}

/// A text with the separator behind it, and a piece behind that, has that piece behind its own.
proof fn lemma_pieces_behind(s: Seq<char>, piece: Seq<char>, separator: char)
    requires
        forall|i: int| 0 <= i < piece.len() ==> #[trigger] piece[i] != separator,
    ensures
        pieces(s.push(separator) + piece, separator) == pieces(s, separator).push(piece),
    decreases piece.len(),
{
    let whole = s.push(separator) + piece;
    if piece.len() == 0 {
        assert(whole.drop_last() =~= s);
        assert(piece =~= Seq::empty());
    } else {
        let front = piece.drop_last();
        assert forall|i: int| 0 <= i < front.len() implies #[trigger] front[i] != separator by {
            assert(front[i] == piece[i]);
        }
        lemma_pieces_behind(s, front, separator);
        assert(whole.drop_last() =~= s.push(separator) + front);
        assert(piece[piece.len() - 1] != separator);
        let before = pieces(s, separator).push(front);
        assert(before.drop_last() =~= pieces(s, separator));
        assert(front.push(piece.last()) =~= piece);
    }
}

/// A text without a separator is one piece.
proof fn lemma_one_piece(piece: Seq<char>, separator: char)
    requires
        forall|i: int| 0 <= i < piece.len() ==> #[trigger] piece[i] != separator,
    ensures
        pieces(piece, separator) == seq![piece],
    decreases piece.len(),
{
    if piece.len() > 0 {
        let front = piece.drop_last();
        assert forall|i: int| 0 <= i < front.len() implies #[trigger] front[i] != separator by {
            assert(front[i] == piece[i]);
        }
        lemma_one_piece(front, separator);
        assert(piece[piece.len() - 1] != separator);
        assert(front.push(piece.last()) =~= piece);
        assert(pieces(piece, separator) =~= seq![piece]);
    } else {
        assert(piece =~= Seq::empty());
        assert(pieces(piece, separator) =~= seq![piece]);
    }
}

/// Pieces that hold no separator, joined by it, are taken apart into the same pieces.
pub proof fn joined_pieces_are_the_pieces(parts: Seq<Seq<char>>, separator: char)
    requires
        parts.len() > 0,
        forall|i: int, k: int|
            0 <= i < parts.len() && 0 <= k < parts[i].len() ==> #[trigger] parts[i][k] != separator,
    ensures
        pieces(joined(parts, seq![separator]), separator) == parts,
    decreases parts.len(),
{
    let last = parts.last();
    assert forall|k: int| 0 <= k < last.len() implies #[trigger] last[k] != separator by {
        assert(parts[parts.len() - 1][k] != separator);
    }
    if parts.len() == 1 {
        lemma_one_piece(last, separator);
        assert(parts =~= seq![last]);
    } else {
        let front = parts.drop_last();
        assert forall|i: int, k: int|
            0 <= i < front.len() && 0 <= k < front[i].len() implies #[trigger] front[i][k]
            != separator by {
            assert(parts[i][k] != separator);
        }
        joined_pieces_are_the_pieces(front, separator);
        let before = joined(front, seq![separator]);
        lemma_pieces_behind(before, last, separator);
        assert(before + seq![separator] + last =~= before.push(separator) + last);
        assert(parts =~= front.push(last));
    }
}

/// Lines without a line feed, and without a carriage return at their end, are the lines of the text
/// that has a line feed between each two of them, with one behind the last or not.
pub proof fn lines_stand_between_line_feeds(lines: Seq<Seq<char>>)
    requires
        lines.len() > 0,
        forall|i: int, k: int|
            0 <= i < lines.len() && 0 <= k < lines[i].len() ==> #[trigger] lines[i][k] != '\n',
        forall|i: int|
            0 <= i < lines.len() && (#[trigger] lines[i]).len() > 0 ==> lines[i].last() != '\r',
    ensures
        lines_of(joined(lines, seq!['\n']).push('\n')) == lines,
        lines.last().len() > 0 ==> lines_of(joined(lines, seq!['\n'])) == lines,
{
    let text = joined(lines, seq!['\n']);
    joined_pieces_are_the_pieces(lines, '\n');
    assert(text.push('\n') + Seq::<char>::empty() =~= text.push('\n'));
    lemma_pieces_behind(text, Seq::empty(), '\n');
    let strip = |line: Seq<char>| without_return(line);
    assert(lines.push(Seq::empty()).drop_last() =~= lines);
    assert forall|i: int| 0 <= i < lines.len() implies without_return(#[trigger] lines[i])
        == lines[i] by {}
    assert(lines.map_values(strip) =~= lines);
    if lines.last().len() > 0 {
        assert(lines.drop_last().map_values(strip) =~= lines.drop_last());
        assert(lines.drop_last().push(lines.last()) =~= lines);
    }
}

/// A carriage return before a line feed belongs to neither line.
pub proof fn carriage_returns_are_not_part_of_lines(line: Seq<char>)
    requires
        forall|k: int| 0 <= k < line.len() ==> #[trigger] line[k] != '\n',
    ensures
        lines_of(line.push('\r').push('\n')) == seq![line],
        lines_of(line.push('\r')) == seq![line.push('\r')],
{
    let long = line.push('\r');
    assert forall|k: int| 0 <= k < long.len() implies #[trigger] long[k] != '\n' by {
        if k < line.len() {
            assert(long[k] == line[k]);
        }
    }
    lemma_one_piece(long, '\n');
    assert(long.push('\n') + Seq::<char>::empty() =~= long.push('\n'));
    lemma_pieces_behind(long, Seq::empty(), '\n');
    assert(long.drop_last() =~= line);
    assert(lines_of(long.push('\n')) =~= seq![line]);
    assert(lines_of(long) =~= seq![long]);
}

/// Trimming takes white space away at the ends, and nothing else: what is left with the white space
/// round it is the text.
pub proof fn trimming_takes_only_space(before: Seq<char>, s: Seq<char>, behind: Seq<char>)
    requires
        forall|i: int| 0 <= i < before.len() ==> is_space(#[trigger] before[i]),
        forall|i: int| 0 <= i < behind.len() ==> is_space(#[trigger] behind[i]),
        s.len() > 0 ==> !is_space(s[0]) && !is_space(s.last()),
    ensures
        trimmed(before + s + behind) == s,
    decreases before.len() + behind.len(),
{
    let whole = before + s + behind;
    if s.len() == 0 {
        lemma_all_space(whole);
        assert(trimmed(whole) =~= s);
    } else if before.len() > 0 {
        let rest = before.skip(1);
        assert(is_space(before[0]));
        assert forall|i: int| 0 <= i < rest.len() implies is_space(#[trigger] rest[i]) by {
            assert(rest[i] == before[i + 1]);
        }
        assert(whole[0] == before[0]);
        assert(whole.skip(1) =~= rest + s + behind);
        trimming_takes_only_space(rest, s, behind);
    } else if behind.len() > 0 {
        let rest = behind.drop_last();
        assert forall|i: int| 0 <= i < rest.len() implies is_space(#[trigger] rest[i]) by {
            assert(rest[i] == behind[i]);
        }
        assert(whole =~= s + behind);
        assert(whole[0] == s[0]);
        assert(is_space(behind[behind.len() - 1]));
        assert(whole.last() == behind.last());
        assert(whole.drop_last() =~= before + s + rest);
        trimming_takes_only_space(before, s, rest);
        assert((before + s + rest)[0] == s[0]);
    } else {
        assert(whole =~= s);
    }
}

proof fn lemma_all_space(s: Seq<char>)
    requires
        forall|i: int| 0 <= i < s.len() ==> is_space(#[trigger] s[i]),
    ensures
        trimmed_start(s).len() == 0,
    decreases s.len(),
{
    if s.len() > 0 {
        assert(is_space(s[0]));
        assert forall|i: int| 0 <= i < s.skip(1).len() implies is_space(#[trigger] s.skip(1)[i]) by {
            assert(is_space(s[i + 1]));
        }
        lemma_all_space(s.skip(1));
    }
}

/// The first word stands between white space, or at an end of the text.
pub proof fn the_first_word_stands_between_spaces(
    before: Seq<char>,
    word: Seq<char>,
    behind: Seq<char>,
)
    requires
        forall|i: int| 0 <= i < before.len() ==> is_space(#[trigger] before[i]),
        word.len() > 0,
        forall|i: int| 0 <= i < word.len() ==> !is_space(#[trigger] word[i]),
        behind.len() > 0 ==> is_space(behind[0]),
    ensures
        first_word_of(before + word + behind) == Some(word),
    decreases before.len(),
{
    let whole = before + word + behind;
    if before.len() > 0 {
        let rest = before.skip(1);
        assert(is_space(before[0]));
        assert forall|i: int| 0 <= i < rest.len() implies is_space(#[trigger] rest[i]) by {
            assert(rest[i] == before[i + 1]);
        }
        assert(whole[0] == before[0]);
        assert(whole.skip(1) =~= rest + word + behind);
        the_first_word_stands_between_spaces(rest, word, behind);
    } else {
        assert(whole =~= word + behind);
        assert(!is_space(word[0]));
        lemma_up_to_space(word, behind);
    }
}

proof fn lemma_up_to_space(word: Seq<char>, behind: Seq<char>)
    requires
        forall|i: int| 0 <= i < word.len() ==> !is_space(#[trigger] word[i]),
        behind.len() > 0 ==> is_space(behind[0]),
    ensures
        up_to_space(word + behind) == word,
    decreases word.len(),
{
    let whole = word + behind;
    if word.len() == 0 {
        assert(whole =~= behind);
        assert(up_to_space(whole) =~= word);
    } else {
        let rest = word.skip(1);
        assert forall|i: int| 0 <= i < rest.len() implies !is_space(#[trigger] rest[i]) by {
            assert(rest[i] == word[i + 1]);
        }
        assert(!is_space(word[0]));
        assert(whole.skip(1) =~= rest + behind);
        lemma_up_to_space(rest, behind);
        assert(seq![word[0]] + rest =~= word);
    }
}

/// The capital of each small letter of ASCII is the letter 32 places before it, and only they have
/// another one than themselves.
pub proof fn capitals_are_those_of_ascii(c: char, k: int)
    requires
        0 <= k < 26,
    ensures
        c as u32 == 97 + k ==> upper(c) as u32 == 65 + k,
        !(97 <= c as u32 <= 122) ==> upper(c) == c,
{
}

/// A text begins with a prefix exactly if it is the prefix with something behind it.
pub proof fn prefixes_stand_before(prefix: Seq<char>, rest: Seq<char>)
    ensures
        has_prefix(prefix + rest, prefix),
        without_prefix(prefix + rest, prefix) == Some(rest),
        forall|s: Seq<char>| #[trigger]
            has_prefix(s, prefix) ==> s == prefix + s.skip(prefix.len() as int),
{
    assert((prefix + rest).take(prefix.len() as int) =~= prefix);
    assert((prefix + rest).skip(prefix.len() as int) =~= rest);
    assert forall|s: Seq<char>| #[trigger] has_prefix(s, prefix) implies s == prefix + s.skip(
        prefix.len() as int,
    ) by {
        assert(s =~= s.take(prefix.len() as int) + s.skip(prefix.len() as int));
    }
}

/// Text at the left of a column has nothing but spaces behind it, text at the right nothing but
/// spaces before it; the column is as wide as was asked, or as the text if that is wider.
pub proof fn columns_are_filled_with_spaces(s: Seq<char>, width: int)
    requires
        s.len() <= width,
    ensures
        at_left(s, width).len() == width,
        at_left(s, width).take(s.len() as int) == s,
        forall|i: int| s.len() <= i < width ==> #[trigger] at_left(s, width)[i] == ' ',
        at_right(s, width).len() == width,
        at_right(s, width).skip(width - s.len()) == s,
        forall|i: int| 0 <= i < width - s.len() ==> #[trigger] at_right(s, width)[i] == ' ',
{
    assert(at_left(s, width).take(s.len() as int) =~= s);
    assert(at_right(s, width).skip(width - s.len()) =~= s);
}

/// Joined parts stand in order, with the separator between each two of them.
pub proof fn parts_are_joined_in_order(parts: Seq<Seq<char>>, part: Seq<char>, separator: Seq<char>)
    ensures
        joined(seq![part], separator) == part,
        parts.len() > 0 ==> joined(parts.push(part), separator) == joined(parts, separator)
            + separator + part,
{
    reveal_with_fuel(joined, 2);
    assert(parts.push(part).drop_last() =~= parts);
    assert(seq![part].drop_last() =~= Seq::empty());
}

/// What is said of strings, of optional ones and of results is what they hold.
pub proof fn strings_are_seen_by_their_characters<T>(v: Seq<String>, i: int, s: String, t: T)
    ensures
        texts(v).len() == v.len(),
        0 <= i < v.len() ==> texts(v)[i] == v[i]@,
        optional(Some(s)) == Some(s@),
        optional(None) is None,
        told(Ok::<T, String>(t)) == Ok::<T, Seq<char>>(t),
        told(Err::<T, String>(s)) == Err::<T, Seq<char>>(s@),
{
}

} // verus!
