//! Characters and owned text: ASCII case folding, white space, and the
//! conversions between strings and vectors of characters.

use vstd::prelude::*;

verus! {

/// The small letter of an ASCII capital, any other character unchanged.
pub open spec fn ascii_lower(c: char) -> char {
    if 'A' <= c && c <= 'Z' {
        ((c as u32) + 32) as char
    } else {
        c
    }
}

/// `s` with every ASCII capital replaced by its small letter.
pub open spec fn lower(s: Seq<char>) -> Seq<char> {
    Seq::new(s.len(), |i: int| ascii_lower(s[i]))
}

/// Whether two texts are equal up to the case of their ASCII letters.
pub open spec fn same_ignoring_case(a: Seq<char>, b: Seq<char>) -> bool {
    lower(a) == lower(b)
}

/// Whether `c` has the Unicode property White_Space.
pub open spec fn is_whitespace(c: char) -> bool {
    let n = c as u32;
    ||| 0x09 <= n <= 0x0D
    ||| n == 0x20
    ||| n == 0x85
    ||| n == 0xA0
    ||| n == 0x1680
    ||| 0x2000 <= n <= 0x200A
    ||| n == 0x2028
    ||| n == 0x2029
    ||| n == 0x202F
    ||| n == 0x205F
    ||| n == 0x3000
}

/// Whether a line holds nothing but white space.
pub open spec fn is_blank(line: Seq<char>) -> bool {
    forall|i: int| 0 <= i < line.len() ==> is_whitespace(#[trigger] line[i])
}

/// The small letter of an ASCII capital, any other character unchanged.
pub fn to_lower(c: char) -> (r: char)
    ensures
        r == ascii_lower(c),
{
    if c >= 'A' && c <= 'Z' {
        ((c as u8) + 32u8) as char
    } else {
        c
    }
}

/// Whether `c` has the Unicode property White_Space.
pub fn whitespace(c: char) -> (b: bool)
    ensures
        b == is_whitespace(c),
{
    let n: u32 = c as u32;
    (0x09 <= n && n <= 0x0D) || n == 0x20 || n == 0x85 || n == 0xA0 || n == 0x1680 || (0x2000 <= n
        && n <= 0x200A) || n == 0x2028 || n == 0x2029 || n == 0x202F || n == 0x205F || n == 0x3000
}

/// Whether `line` holds nothing but white space.
pub fn blank(line: &Vec<char>) -> (b: bool)
    ensures
        b == is_blank(line@),
{
    let mut i: usize = 0;
    while i < line.len()
        invariant
            i <= line.len(),
            forall|k: int| 0 <= k < i ==> is_whitespace(#[trigger] line@[k]),
        decreases line.len() - i,
    {
        if !whitespace(line[i]) {
            return false;
        }
        i += 1;
    }
    true
}

/// The characters of `text`, in order.
pub fn chars_of(text: &str) -> (out: Vec<char>)
    ensures
        out@ == text@,
{
    let mut out: Vec<char> = Vec::new();
    for c in it: text.chars()
        invariant
            out@ == it.seq().take(it.index()),
    {
        out.push(c);
    }
    out
}

/// `String::push` of std: the string afterwards is the string before with `c`
/// added at its end.
#[verifier::external_body]
fn push_char(s: &mut String, c: char)
    ensures
        final(s)@ == old(s)@.push(c),
{
    s.push(c);
}

/// The characters of `chars` from `from` up to `to`, as a string.
pub fn string_of(chars: &Vec<char>, from: usize, to: usize) -> (s: String)
    requires
        from <= to <= chars.len(),
    ensures
        s@ == chars@.subrange(from as int, to as int),
{
    let mut s = String::new();
    let mut i: usize = from;
    while i < to
        invariant
            from <= i <= to <= chars.len(),
            s@ == chars@.subrange(from as int, i as int),
        decreases to - i,
    {
        push_char(&mut s, chars[i]);
        i += 1;
    }
    s
}

/// `s` as it is compared: folded to small letters where `fold` is set.
pub open spec fn normal(s: Seq<char>, fold: bool) -> Seq<char> {
    if fold {
        lower(s)
    } else {
        s
    }
}

/// Whether `word` stands in `chars` at index `at`, up to the case of ASCII
/// letters where `fold` is set.
pub open spec fn stands_at(word: Seq<char>, chars: Seq<char>, at: int, fold: bool) -> bool {
    &&& 0 <= at
    &&& at + word.len() <= chars.len()
    &&& normal(chars.subrange(at, at + word.len()), fold) == normal(word, fold)
}

/// A word that stands at index 0 without folding is a prefix, and the other
/// way round.
pub proof fn lemma_stands_at_start_is_prefix(word: Seq<char>, chars: Seq<char>)
    ensures
        stands_at(word, chars, 0, false) <==> word.is_prefix_of(chars),
{
    if word.is_prefix_of(chars) {
        assert(chars.subrange(0, word.len() as int) =~= word);
    }
}

fn same_char(a: char, b: char, fold: bool) -> (same: bool)
    ensures
        same == if fold {
            ascii_lower(a) == ascii_lower(b)
        } else {
            a == b
        },
{
    if fold {
        to_lower(a) == to_lower(b)
    } else {
        a == b
    }
}

/// Looks for `word` in `chars` at index `at`; gives the number of characters
/// of `word` where it stands there.
pub fn find_at(word: &str, chars: &Vec<char>, at: usize, fold: bool) -> (found: Option<usize>)
    requires
        at <= chars.len(),
    ensures
        found is Some <==> stands_at(word@, chars@, at as int, fold),
        found matches Some(n) ==> n == word@.len(),
{
    let room: usize = chars.len() - at;
    let mut i: usize = 0;
    let mut same = true;
    for c in it: word.chars()
        invariant
            it.seq() == word@,
            at + room == chars.len(),
            i <= room,
            i <= it.index(),
            same ==> i == it.index(),
            same ==> normal(chars@.subrange(at as int, at + i), fold) == normal(
                word@.take(i as int),
                fold,
            ),
            !same ==> !stands_at(word@, chars@, at as int, fold),
    {
        if same {
            if i < room && same_char(c, chars[at + i], fold) {
                proof {
                    let before = chars@.subrange(at as int, at + i);
                    let after = chars@.subrange(at as int, at + i + 1);
                    assert(after =~= before.push(chars@[at + i]));
                    assert(word@.take(i + 1) =~= word@.take(i as int).push(c));
                    assert(lower(after) =~= lower(before).push(ascii_lower(chars@[at + i])));
                    assert(lower(word@.take(i + 1)) =~= lower(word@.take(i as int)).push(
                        ascii_lower(c),
                    ));
                }
                i += 1;
            } else {
                proof {
                    if i < room {
                        let window = chars@.subrange(at as int, at + word@.len());
                        if at + word@.len() <= chars@.len() {
                            assert(window[i as int] == chars@[at + i]);
                            assert(word@[i as int] == c);
                            assert(normal(window, fold)[i as int] != normal(word@, fold)[i as int]);
                        }
                    }
                }
                same = false;
            }
        }
    }
    if same {
        proof {
            assert(word@.take(i as int) =~= word@);
        }
        Some(i)
    } else {
        None
    }
}

/// The characters of `chars` from `from` up to `to`.
pub fn slice_of(chars: &Vec<char>, from: usize, to: usize) -> (out: Vec<char>)
    requires
        from <= to <= chars.len(),
    ensures
        out@ == chars@.subrange(from as int, to as int),
{
    let mut out: Vec<char> = Vec::new();
    let mut i: usize = from;
    while i < to
        invariant
            from <= i <= to <= chars.len(),
            out@ == chars@.subrange(from as int, i as int),
        decreases to - i,
    {
        out.push(chars[i]);
        i += 1;
    }
    out
}

} // verus!
