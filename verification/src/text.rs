//! Text primitives: the string operations that the rest of the crate is built from, each with
//! its meaning as a sequence of characters.

use vstd::prelude::*;
use vstd::string::*;

verus! {

/// `String::push` appends one character.
pub assume_specification[ String::push ](s: &mut String, c: char)
    ensures
        final(s)@ == old(s)@.push(c),
;

/// What `Debug` of `str` writes: the text between quotation marks, with what could be misread in
/// it escaped.
pub uninterp spec fn quoted(s: Seq<char>) -> Seq<char>;

/// `Debug` of `str`, as `format!` writes it with `{:?}`: what it writes depends on the text
/// alone.
#[verifier::external_body]
pub(crate) fn quote(s: &str) -> (r: String)
    ensures
        r@ == quoted(s@),
{
    format!("{s:?}")
}

/// The characters of a string, one by one.
pub fn chars_of(s: &str) -> (out: Vec<char>)
    ensures
        out@ == s@,
{
    let mut out: Vec<char> = Vec::new();
    for c in it: s.chars()
        invariant
            it.seq() == s@,
            out@ == s@.take(it.index()),
    {
        out.push(c);
        assert(s@.take(it.index() + 1) =~= s@.take(it.index()).push(c));
    }
    assert(s@.take(s@.len() as int) =~= s@);
    out
}

/// Whether two strings hold the same characters.
pub fn same(a: &str, b: &str) -> (r: bool)
    ensures
        r == (a@ == b@),
{
    let x = chars_of(a);
    let y = chars_of(b);
    if x.len() != y.len() {
        return false;
    }
    let mut i: usize = 0;
    while i < x.len()
        invariant
            i <= x.len(),
            x.len() == y.len(),
            x@ == a@,
            y@ == b@,
            forall|j: int| 0 <= j < i ==> x@[j] == y@[j],
        decreases x.len() - i,
    {
        if x[i] != y[i] {
            return false;
        }
        i += 1;
    }
    assert(a@ =~= b@);
    true
}

// ---------------------------------------------------------------------------------------------
// Trimming
// ---------------------------------------------------------------------------------------------

/// The characters with the Unicode `White_Space` property.
pub open spec fn white(c: char) -> bool {
    let n = c as u32;
    ||| 0x09 <= n <= 0x0d
    ||| n == 0x20
    ||| n == 0x85
    ||| n == 0xa0
    ||| n == 0x1680
    ||| 0x2000 <= n <= 0x200a
    ||| n == 0x2028
    ||| n == 0x2029
    ||| n == 0x202f
    ||| n == 0x205f
    ||| n == 0x3000
}

/// Whether a character is white space.
pub fn is_white(c: char) -> (r: bool)
    ensures
        r == white(c),
{
    let n: u32 = c as u32;
    (0x09 <= n && n <= 0x0d) || n == 0x20 || n == 0x85 || n == 0xa0 || n == 0x1680 || (0x2000 <= n
        && n <= 0x200a) || n == 0x2028 || n == 0x2029 || n == 0x202f || n == 0x205f || n == 0x3000
}

/// What is taken off an end of a string.
pub enum Strip {
    /// White space.
    White,
    /// One given character.
    Only(char),
}

impl Strip {
    pub open spec fn takes(self, c: char) -> bool {
        match self {
            Strip::White => white(c),
            Strip::Only(d) => c == d,
        }
    }

    /// Whether a character is taken off.
    pub fn is_taken(&self, c: char) -> (r: bool)
        ensures
            r == self.takes(c),
    {
        match self {
            Strip::White => is_white(c),
            Strip::Only(d) => c == *d,
        }
    }
}

/// `s` without the longest run of taken characters at its front.
pub open spec fn front_stripped(s: Seq<char>, what: Strip) -> Seq<char>
    decreases s.len(),
{
    if s.len() > 0 && what.takes(s[0]) {
        front_stripped(s.skip(1), what)
    } else {
        s
    }
}

/// `s` without the longest run of taken characters at its back.
pub open spec fn back_stripped(s: Seq<char>, what: Strip) -> Seq<char>
    decreases s.len(),
{
    if s.len() > 0 && what.takes(s.last()) {
        back_stripped(s.drop_last(), what)
    } else {
        s
    }
}

/// `s` without white space at either end.
pub open spec fn trimmed(s: Seq<char>) -> Seq<char> {
    back_stripped(front_stripped(s, Strip::White), Strip::White)
}

/// Takes characters off the front.
pub fn strip_front<'a>(s: &'a str, what: &Strip) -> (r: &'a str)
    ensures
        r@ == front_stripped(s@, *what),
{
    let c = chars_of(s);
    let mut i: usize = 0;
    assert(s@.skip(0) =~= s@);
    while i < c.len() && what.is_taken(c[i])
        invariant
            i <= c.len(),
            c@ == s@,
            front_stripped(s@, *what) == front_stripped(s@.skip(i as int), *what),
        decreases c.len() - i,
    {
        assert(s@.skip(i as int).skip(1) =~= s@.skip(i + 1));
        i += 1;
    }
    assert(s@.subrange(i as int, c@.len() as int) =~= s@.skip(i as int));
    s.substring_char(i, c.len())
}

/// Takes characters off the back.
pub fn strip_back<'a>(s: &'a str, what: &Strip) -> (r: &'a str)
    ensures
        r@ == back_stripped(s@, *what),
{
    let c = chars_of(s);
    let mut n: usize = c.len();
    assert(s@.take(n as int) =~= s@);
    while n > 0 && what.is_taken(c[n - 1])
        invariant
            n <= c.len(),
            c@ == s@,
            back_stripped(s@, *what) == back_stripped(s@.take(n as int), *what),
        decreases n,
    {
        assert(s@.take(n as int).drop_last() =~= s@.take(n - 1));
        n -= 1;
    }
    assert(s@.subrange(0, n as int) =~= s@.take(n as int));
    s.substring_char(0, n)
}

/// Takes white space off both ends.
pub fn trim<'a>(s: &'a str) -> (r: &'a str)
    ensures
        r@ == trimmed(s@),
{
    strip_back(strip_front(s, &Strip::White), &Strip::White)
}

// ---------------------------------------------------------------------------------------------
// Case
// ---------------------------------------------------------------------------------------------

/// The lower-case form of an ASCII letter; every other character stands for itself.
pub open spec fn lower_char(c: char) -> char {
    if 'A' <= c <= 'Z' {
        ((c as u8) + 32) as char
    } else {
        c
    }
}

/// A text with its ASCII letters in lower case.
pub open spec fn lowered(s: Seq<char>) -> Seq<char> {
    s.map_values(|c: char| lower_char(c))
}

/// Turns ASCII letters into lower case.
pub fn lower(s: &str) -> (r: String)
    ensures
        r@ == lowered(s@),
{
    let c = chars_of(s);
    let mut out: String = String::new();
    let mut i: usize = 0;
    while i < c.len()
        invariant
            i <= c.len(),
            c@ == s@,
            out@ == lowered(s@.take(i as int)),
        decreases c.len() - i,
    {
        let x: char = c[i];
        let y: char = if 'A' <= x && x <= 'Z' {
            ((x as u8) + 32) as char
        } else {
            x
        };
        out.push(y);
        assert(lowered(s@.take(i + 1)) =~= lowered(s@.take(i as int)).push(y));
        i += 1;
    }
    assert(s@.take(s@.len() as int) =~= s@);
    out
}

// ---------------------------------------------------------------------------------------------
// Searching and splitting
// ---------------------------------------------------------------------------------------------

/// Where `c` first stands in `s`; the length of `s` where it does not occur.
pub open spec fn position(s: Seq<char>, c: char) -> int
    decreases s.len(),
{
    if s.len() == 0 || s[0] == c {
        0
    } else {
        1 + position(s.skip(1), c)
    }
}

/// What `position` means: the character stands there, and not before.
pub proof fn lemma_position(s: Seq<char>, c: char)
    ensures
        0 <= position(s, c) <= s.len(),
        position(s, c) < s.len() ==> s[position(s, c)] == c,
        forall|j: int| 0 <= j < position(s, c) ==> s[j] != c,
    decreases s.len(),
{
    if s.len() > 0 && s[0] != c {
        lemma_position(s.skip(1), c);
        assert forall|j: int| 0 <= j < position(s, c) implies s[j] != c by {
            if j > 0 {
                assert(s[j] == s.skip(1)[j - 1]);
            }
        }
    }
}

/// The place where `c` first stands is the only one that `position` can name.
pub proof fn lemma_position_is(s: Seq<char>, c: char, n: int)
    requires
        0 <= n <= s.len(),
        n < s.len() ==> s[n] == c,
        forall|j: int| 0 <= j < n ==> s[j] != c,
    ensures
        position(s, c) == n,
{
    lemma_position(s, c);
    let p = position(s, c);
    if p < n {
        assert(s[p] != c);
    }
}

/// `s` cut at the first `c`: what stands before it and what stands behind it.
pub open spec fn cut(s: Seq<char>, c: char) -> Option<(Seq<char>, Seq<char>)> {
    let n = position(s, c);
    if n < s.len() {
        Some((s.take(n), s.skip(n + 1)))
    } else {
        None
    }
}

/// The index of the first `c` at or behind `from`, or the length.
fn seek(chars: &Vec<char>, from: usize, c: char) -> (n: usize)
    requires
        from <= chars.len(),
    ensures
        from <= n <= chars.len(),
        n == from + position(chars@.skip(from as int), c),
{
    let mut n: usize = from;
    while n < chars.len() && chars[n] != c
        invariant
            from <= n <= chars.len(),
            forall|j: int| from <= j < n ==> chars@[j] != c,
        decreases chars.len() - n,
    {
        n += 1;
    }
    proof {
        lemma_position_is(chars@.skip(from as int), c, n - from);
    }
    n
}

/// Cuts a string at the first `c`.
pub fn split_once<'a>(s: &'a str, c: char) -> (r: Option<(&'a str, &'a str)>)
    ensures
        match r {
            Some((a, b)) => cut(s@, c) == Some((a@, b@)),
            None => cut(s@, c) is None,
        },
{
    let chars = chars_of(s);
    let n: usize = seek(&chars, 0, c);
    assert(s@.skip(0) =~= s@);
    if n < chars.len() {
        let a = s.substring_char(0, n);
        let b = s.substring_char(n + 1, chars.len());
        assert(a@ =~= s@.take(n as int));
        assert(b@ =~= s@.skip(n + 1));
        Some((a, b))
    } else {
        None
    }
}

/// Whether `s` ends with `tail`.
pub open spec fn has_suffix(s: Seq<char>, tail: Seq<char>) -> bool {
    tail.len() <= s.len() && s.skip(s.len() - tail.len()) == tail
}

/// Whether a string ends with another.
pub fn ends_with(s: &str, tail: &str) -> (r: bool)
    ensures
        r == has_suffix(s@, tail@),
{
    let n: usize = s.unicode_len();
    let m: usize = tail.unicode_len();
    if m > n {
        return false;
    }
    assert(s@.subrange(n - m, n as int) =~= s@.skip(n - m));
    same(s.substring_char(n - m, n), tail)
}

/// A line without the carriage return that belongs to its line ending.
pub open spec fn without_return(s: Seq<char>) -> Seq<char> {
    if s.len() > 0 && s.last() == '\r' {
        s.drop_last()
    } else {
        s
    }
}

/// The lines of a text. A line ends at a line feed, with or without a carriage return in front
/// of it; the last one may lack its ending.
pub open spec fn lines(s: Seq<char>) -> Seq<Seq<char>>
    decreases s.len(),
{
    let n = position(s, '\n');
    if s.len() == 0 {
        Seq::empty()
    } else if 0 <= n < s.len() {
        seq![without_return(s.take(n))] + lines(s.skip(n + 1))
    } else {
        seq![s]
    }
}

/// How many characters at the front of `s` are not white space.
pub open spec fn word_len(s: Seq<char>) -> nat
    decreases s.len(),
{
    if s.len() == 0 || white(s[0]) {
        0
    } else {
        1 + word_len(s.skip(1))
    }
}

/// A word lies within the text that it starts.
pub proof fn lemma_word_len(s: Seq<char>)
    ensures
        word_len(s) <= s.len(),
        s.len() > 0 && !white(s[0]) ==> word_len(s) > 0,
    decreases s.len(),
{
    if s.len() > 0 && !white(s[0]) {
        lemma_word_len(s.skip(1));
    }
}

/// Stripping shortens, and leaves no taken character in front.
pub proof fn lemma_front_stripped(s: Seq<char>, what: Strip)
    ensures
        front_stripped(s, what).len() <= s.len(),
        front_stripped(s, what).len() > 0 ==> !what.takes(front_stripped(s, what)[0]),
    decreases s.len(),
{
    if s.len() > 0 && what.takes(s[0]) {
        lemma_front_stripped(s.skip(1), what);
    }
}

/// The words of a text: its maximal runs of characters that are not white space.
pub open spec fn fields(s: Seq<char>) -> Seq<Seq<char>>
    decreases s.len(),
{
    let r = front_stripped(s, Strip::White);
    if r.len() == 0 {
        Seq::empty()
    } else {
        proof {
            lemma_front_stripped(s, Strip::White);
            lemma_word_len(r);
        }
        seq![r.take(word_len(r) as int)] + fields(r.skip(word_len(r) as int))
    }
}

/// Splits a text into lines.
pub fn split_lines<'a>(s: &'a str) -> (out: Vec<&'a str>)
    ensures
        out.deep_view() == lines(s@),
{
    let chars = chars_of(s);
    let mut out: Vec<&'a str> = Vec::new();
    let mut from: usize = 0;
    assert(s@.skip(0) =~= s@);
    assert(out.deep_view() + lines(s@.skip(0)) =~= lines(s@));
    while from < chars.len()
        invariant
            from <= chars.len(),
            chars@ == s@,
            out.deep_view() + lines(s@.skip(from as int)) == lines(s@),
        decreases chars.len() - from,
    {
        let n: usize = seek(&chars, from, '\n');
        let ghost rest = s@.skip(from as int);
        let ghost before = out.deep_view();
        if n < chars.len() {
            let mut end: usize = n;
            assert(rest.take(n - from) =~= s@.subrange(from as int, n as int));
            if from < end && chars[end - 1] == '\r' {
                end -= 1;
            }
            let line = s.substring_char(from, end);
            assert(line@ =~= without_return(rest.take(n - from)));
            out.push(line);
            assert(rest.skip(n - from + 1) =~= s@.skip(n + 1));
            assert(out.deep_view() =~= before.push(line@));
            assert(before + (seq![line@] + lines(s@.skip(n + 1))) =~= before.push(line@) + lines(
                s@.skip(n + 1),
            ));
            from = n + 1;
        } else {
            let line = s.substring_char(from, n);
            assert(line@ =~= rest);
            out.push(line);
            assert(out.deep_view() =~= before.push(line@));
            assert(s@.skip(n as int) =~= Seq::<char>::empty());
            assert(before + seq![line@] =~= before.push(line@) + lines(s@.skip(n as int)));
            from = n;
        }
    }
    assert(s@.skip(from as int) =~= Seq::<char>::empty());
    assert(out.deep_view() + lines(Seq::<char>::empty()) =~= out.deep_view());
    out
}

/// The word at the front of a text.
fn first_word<'a>(s: &'a str) -> (r: (&'a str, &'a str))
    ensures
        r.0@ == s@.take(word_len(s@) as int),
        r.1@ == s@.skip(word_len(s@) as int),
        word_len(s@) <= s@.len(),
{
    let chars = chars_of(s);
    let mut n: usize = 0;
    assert(s@.skip(0) =~= s@);
    while n < chars.len() && !is_white(chars[n])
        invariant
            n <= chars.len(),
            chars@ == s@,
            word_len(s@) == n + word_len(s@.skip(n as int)),
        decreases chars.len() - n,
    {
        assert(s@.skip(n as int).skip(1) =~= s@.skip(n + 1));
        n += 1;
    }
    assert(word_len(s@.skip(n as int)) == 0);
    let a = s.substring_char(0, n);
    let b = s.substring_char(n, chars.len());
    assert(a@ =~= s@.take(n as int));
    assert(b@ =~= s@.skip(n as int));
    (a, b)
}

/// Splits a text into words.
pub fn split_fields<'a>(s: &'a str) -> (out: Vec<&'a str>)
    ensures
        out.deep_view() == fields(s@),
{
    let mut out: Vec<&'a str> = Vec::new();
    let mut rest: &'a str = strip_front(s, &Strip::White);
    proof {
        lemma_front_stripped(s@, Strip::White);
        lemma_stripped_again(s@, Strip::White);
    }
    assert(out.deep_view() + fields(rest@) =~= fields(s@));
    while !rest.is_empty()
        invariant
            rest@ == front_stripped(rest@, Strip::White),
            out.deep_view() + fields(rest@) == fields(s@),
        decreases rest@.len(),
    {
        let ghost before = out.deep_view();
        let ghost all = rest@;
        proof {
            lemma_word_len(rest@);
            lemma_front_stripped(rest@, Strip::White);
        }
        let (word, tail) = first_word(rest);
        out.push(word);
        rest = strip_front(tail, &Strip::White);
        proof {
            lemma_front_stripped(tail@, Strip::White);
            lemma_stripped_again(tail@, Strip::White);
            assert(out.deep_view() =~= before.push(word@));
            assert(fields(tail@) =~= fields(rest@));
            assert(before + (seq![word@] + fields(tail@)) =~= before.push(word@) + fields(rest@));
        }
    }
    assert(fields(rest@) =~= Seq::<Seq<char>>::empty());
    assert(out.deep_view() + fields(rest@) =~= out.deep_view());
    out
}

/// Stripping twice is stripping once.
pub proof fn lemma_stripped_again(s: Seq<char>, what: Strip)
    ensures
        front_stripped(front_stripped(s, what), what) == front_stripped(s, what),
    decreases s.len(),
{
    if s.len() > 0 && what.takes(s[0]) {
        lemma_stripped_again(s.skip(1), what);
    }
}

/// Whether what is taken off is the same in either case of letters.
pub open spec fn caseless(what: Strip) -> bool {
    match what {
        Strip::White => true,
        Strip::Only(c) => !('A' <= c <= 'Z') && !('a' <= c <= 'z'),
    }
}

/// Stripping the front and lowering the case can be done in either order.
pub proof fn lemma_front_lowered(s: Seq<char>, what: Strip)
    requires
        caseless(what),
    ensures
        front_stripped(lowered(s), what) == lowered(front_stripped(s, what)),
    decreases s.len(),
{
    if s.len() > 0 {
        assert(lowered(s)[0] == lower_char(s[0]));
        assert(what.takes(lower_char(s[0])) == what.takes(s[0]));
        if what.takes(s[0]) {
            assert(lowered(s).skip(1) =~= lowered(s.skip(1)));
            lemma_front_lowered(s.skip(1), what);
        }
    }
}

/// Stripping the back and lowering the case can be done in either order.
pub proof fn lemma_back_lowered(s: Seq<char>, what: Strip)
    requires
        caseless(what),
    ensures
        back_stripped(lowered(s), what) == lowered(back_stripped(s, what)),
    decreases s.len(),
{
    if s.len() > 0 {
        assert(lowered(s).last() == lower_char(s.last()));
        assert(what.takes(lower_char(s.last())) == what.takes(s.last()));
        if what.takes(s.last()) {
            assert(lowered(s).drop_last() =~= lowered(s.drop_last()));
            lemma_back_lowered(s.drop_last(), what);
        }
    }
}

/// White space at the end is trimmed.
pub proof fn lemma_trimmed_push(s: Seq<char>, c: char)
    requires
        white(c),
    ensures
        trimmed(s.push(c)) == trimmed(s),
    decreases s.len(),
{
    if s.len() == 0 {
        assert(s.push(c).skip(1) =~= s);
        assert(front_stripped(s.push(c), Strip::White) == front_stripped(s, Strip::White));
    } else if white(s[0]) {
        assert(s.push(c).skip(1) =~= s.skip(1).push(c));
        lemma_trimmed_push(s.skip(1), c);
    } else {
        assert(s.push(c).drop_last() =~= s);
    }
}

/// A text that trimming leaves as it is does not start with white space.
pub proof fn lemma_trimmed_front(s: Seq<char>)
    requires
        trimmed(s) == s,
        s.len() > 0,
    ensures
        !white(s[0]),
{
    if white(s[0]) {
        lemma_stripped_shorter(s.skip(1));
    }
}

/// Trimming makes no text longer.
proof fn lemma_stripped_shorter(s: Seq<char>)
    ensures
        trimmed(s).len() <= s.len(),
    decreases s.len(),
{
    if s.len() > 0 {
        if white(s[0]) {
            lemma_stripped_shorter(s.skip(1));
        } else {
            lemma_back_shorter(s, Strip::White);
        }
    }
}

proof fn lemma_back_shorter(s: Seq<char>, what: Strip)
    ensures
        back_stripped(s, what).len() <= s.len(),
    decreases s.len(),
{
    if s.len() > 0 && what.takes(s.last()) {
        lemma_back_shorter(s.drop_last(), what);
    }
}

// ---------------------------------------------------------------------------------------------
// Laws
// ---------------------------------------------------------------------------------------------

/// Trimming takes white space off both ends, all of it and nothing else: what is left stands in
/// the text with nothing but white space in front and behind, and neither starts nor ends with
/// any.
pub proof fn law_trimming_takes_white_space(s: Seq<char>)
    ensures
        exists|a: int, b: int|
            #![trigger s.subrange(a, b)]
            {
                &&& 0 <= a <= b <= s.len()
                &&& trimmed(s) == s.subrange(a, b)
                &&& forall|i: int| 0 <= i < a ==> white(#[trigger] s[i])
                &&& forall|i: int| b <= i < s.len() ==> white(#[trigger] s[i])
                &&& a < b ==> !white(s[a]) && !white(s[b - 1])
            },
{
    let front = front_stripped(s, Strip::White);
    let a = lemma_front_is_a_tail(s, Strip::White);
    let n = lemma_back_is_a_head(front, Strip::White);
    let b = a + n;
    assert(front.take(n) =~= s.subrange(a, b));
    assert forall|i: int| b <= i < s.len() implies white(#[trigger] s[i]) by {
        assert(s[i] == front[i - a]);
    }
    if a < b {
        assert(s[a] == front[0] && s[b - 1] == front[n - 1]);
    }
}

/// Stripping the front leaves the text behind a row of taken characters.
pub proof fn lemma_front_is_a_tail(s: Seq<char>, what: Strip) -> (n: int)
    ensures
        0 <= n <= s.len(),
        front_stripped(s, what) == s.skip(n),
        forall|i: int| 0 <= i < n ==> what.takes(#[trigger] s[i]),
        n < s.len() ==> !what.takes(s[n]),
    decreases s.len(),
{
    if s.len() > 0 && what.takes(s[0]) {
        let m = lemma_front_is_a_tail(s.skip(1), what);
        assert(s.skip(1).skip(m) =~= s.skip(m + 1));
        assert forall|i: int| 0 <= i < m + 1 implies what.takes(#[trigger] s[i]) by {
            if i > 0 {
                assert(s[i] == s.skip(1)[i - 1]);
            }
        }
        m + 1
    } else {
        assert(s.skip(0) =~= s);
        0
    }
}

/// Stripping the back leaves the text in front of a row of taken characters.
pub proof fn lemma_back_is_a_head(s: Seq<char>, what: Strip) -> (n: int)
    ensures
        0 <= n <= s.len(),
        back_stripped(s, what) == s.take(n),
        forall|i: int| n <= i < s.len() ==> what.takes(#[trigger] s[i]),
        n > 0 ==> !what.takes(s[n - 1]),
    decreases s.len(),
{
    if s.len() > 0 && what.takes(s.last()) {
        let m = lemma_back_is_a_head(s.drop_last(), what);
        assert(s.drop_last().take(m) =~= s.take(m));
        assert forall|i: int| m <= i < s.len() implies what.takes(#[trigger] s[i]) by {
            if i < s.len() - 1 {
                assert(s[i] == s.drop_last()[i]);
            }
        }
        m
    } else {
        assert(s.take(s.len() as int) =~= s);
        s.len() as int
    }
}

/// Lowering the case changes the letters from A to Z into those from a to z, and no other
/// character, and changes nothing where it is done again.
pub proof fn law_lowering_changes_letters(s: Seq<char>, i: int)
    requires
        0 <= i < s.len(),
    ensures
        lowered(s).len() == s.len(),
        'A' <= s[i] <= 'Z' ==> lowered(s)[i] as int - 'a' as int == s[i] as int - 'A' as int,
        !('A' <= s[i] <= 'Z') ==> lowered(s)[i] == s[i],
        lowered(lowered(s)) == lowered(s),
{
    assert(lowered(lowered(s)) =~= lowered(s));
}

/// Cutting a text at a character and putting the character back between the two parts gives the
/// text, the first part does not hold the character, and a text without it is not cut.
pub proof fn law_cut_parts_make_the_text(s: Seq<char>, c: char)
    ensures
        match cut(s, c) {
            Some((a, b)) => s == a + (seq![c] + b) && !a.contains(c),
            None => !s.contains(c),
        },
{
    lemma_position(s, c);
    if let Some((a, b)) = cut(s, c) {
        assert(s =~= a + (seq![c] + b));
    }
}

proof fn lemma_word_len_is(s: Seq<char>, n: int)
    requires
        0 <= n <= s.len(),
        forall|i: int| 0 <= i < n ==> !white(#[trigger] s[i]),
        n < s.len() ==> white(s[n]),
    ensures
        word_len(s) == n,
    decreases s.len(),
{
    if n > 0 {
        assert forall|i: int| 0 <= i < n - 1 implies !white(#[trigger] s.skip(1)[i]) by {
            assert(s.skip(1)[i] == s[i + 1]);
        }
        lemma_word_len_is(s.skip(1), n - 1);
    }
}

/// A word and white space in front of a text are its first field.
pub proof fn law_word_in_front_is_a_field(word: Seq<char>, c: char, rest: Seq<char>)
    requires
        word.len() > 0,
        forall|i: int| 0 <= i < word.len() ==> !white(#[trigger] word[i]),
        white(c),
    ensures
        fields(word + (seq![c] + rest)) == seq![word] + fields(rest),
        fields(word) == seq![word],
        fields(seq![c] + rest) == fields(rest),
{
    let s = word + (seq![c] + rest);
    let n = word.len() as int;
    assert(s[0] == word[0]);
    assert forall|i: int| 0 <= i < n implies !white(#[trigger] s[i]) by {
        assert(s[i] == word[i]);
    }
    assert(s[n] == c);
    lemma_word_len_is(s, n);
    assert(s.take(n) =~= word);
    assert(s.skip(n) =~= seq![c] + rest);
    assert((seq![c] + rest).skip(1) =~= rest);
    assert(front_stripped(seq![c] + rest, Strip::White) == front_stripped(rest, Strip::White));
    assert(fields(seq![c] + rest) == fields(rest));
    lemma_word_len_is(word, n);
    assert(word.take(n) =~= word);
    assert(word.skip(n) =~= Seq::<char>::empty());
    assert(fields(Seq::<char>::empty()) =~= Seq::<Seq<char>>::empty());
    assert(seq![word] + Seq::<Seq<char>>::empty() =~= seq![word]);
}

/// A line and its ending in front of a text are its first line; a carriage return in front of the
/// line feed belongs to the ending. The last line may lack its ending.
pub proof fn law_line_in_front_is_a_line(one: Seq<char>, rest: Seq<char>)
    requires
        !one.contains('\n'),
    ensures
        one.len() == 0 || one.last() != '\r' ==> lines(one + (seq!['\n'] + rest)) == seq![one]
            + lines(rest),
        lines(one.push('\r') + (seq!['\n'] + rest)) == seq![one] + lines(rest),
        one.len() > 0 ==> lines(one) == seq![one],
        lines(Seq::empty()) == Seq::<Seq<char>>::empty(),
{
    let n = one.len() as int;
    let s = one + (seq!['\n'] + rest);
    assert forall|j: int| 0 <= j < n implies s[j] != '\n' by {
        assert(s[j] == one[j]);
        assert(one.contains(one[j]));
    }
    assert(s[n] == '\n');
    lemma_position_is(s, '\n', n);
    assert(s.take(n) =~= one);
    assert(s.skip(n + 1) =~= rest);
    let t = one.push('\r') + (seq!['\n'] + rest);
    assert forall|j: int| 0 <= j < n + 1 implies t[j] != '\n' by {
        if j < n {
            assert(t[j] == one[j]);
            assert(one.contains(one[j]));
        }
    }
    assert(t[n + 1] == '\n');
    lemma_position_is(t, '\n', n + 1);
    assert(t.take(n + 1) =~= one.push('\r'));
    assert(t.skip(n + 2) =~= rest);
    assert(one.push('\r').drop_last() =~= one);
    assert forall|j: int| 0 <= j < n implies one[j] != '\n' by {
        assert(one.contains(one[j]));
    }
    lemma_position_is(one, '\n', n);
}

/// A text ends with another exactly where it is something and then that other.
pub proof fn law_suffix_stands_at_the_end(s: Seq<char>, front: Seq<char>, tail: Seq<char>)
    ensures
        has_suffix(front + tail, tail),
        has_suffix(s, tail) ==> s == s.take(s.len() - tail.len()) + tail,
{
    assert((front + tail).skip((front + tail).len() - tail.len()) =~= tail);
    if has_suffix(s, tail) {
        assert(s =~= s.take(s.len() - tail.len()) + s.skip(s.len() - tail.len()));
    }
}

} // verus!
