//! The mathematical model of the library: lines, substring containment and
//! simple case folding over sequences of characters, together with the
//! executable helpers that the search functions are proved against.

use vstd::prelude::*;
use vstd::string::StrSliceExecFns;

verus! {

/// Simple case folding of one character: the ASCII uppercase letters map to
/// their lowercase counterparts, every other character is left unchanged.
pub open spec fn lower_char(c: char) -> char {
    match c {
        'A' => 'a',
        'B' => 'b',
        'C' => 'c',
        'D' => 'd',
        'E' => 'e',
        'F' => 'f',
        'G' => 'g',
        'H' => 'h',
        'I' => 'i',
        'J' => 'j',
        'K' => 'k',
        'L' => 'l',
        'M' => 'm',
        'N' => 'n',
        'O' => 'o',
        'P' => 'p',
        'Q' => 'q',
        'R' => 'r',
        'S' => 's',
        'T' => 't',
        'U' => 'u',
        'V' => 'v',
        'W' => 'w',
        'X' => 'x',
        'Y' => 'y',
        'Z' => 'z',
        _ => c,
    }
}

/// Simple case folding of a whole sequence, character by character.
pub open spec fn lower_seq(s: Seq<char>) -> Seq<char> {
    s.map_values(|c: char| lower_char(c))
}

/// The executable counterpart of `lower_char`.
fn lower_char_exec(c: char) -> (r: char)
    ensures
        r == lower_char(c),
{
    match c {
        'A' => 'a',
        'B' => 'b',
        'C' => 'c',
        'D' => 'd',
        'E' => 'e',
        'F' => 'f',
        'G' => 'g',
        'H' => 'h',
        'I' => 'i',
        'J' => 'j',
        'K' => 'k',
        'L' => 'l',
        'M' => 'm',
        'N' => 'n',
        'O' => 'o',
        'P' => 'p',
        'Q' => 'q',
        'R' => 'r',
        'S' => 's',
        'T' => 't',
        'U' => 'u',
        'V' => 'v',
        'W' => 'w',
        'X' => 'x',
        'Y' => 'y',
        'Z' => 'z',
        _ => c,
    }
}

/// The characters of `s`, collected into a vector.
pub fn chars_of(s: &str) -> (r: Vec<char>)
    ensures
        r@ == s@,
{
    let n = s.unicode_len();
    let mut r: Vec<char> = Vec::new();
    let mut i: usize = 0;
    while i < n
        invariant
            n == s@.len(),
            i <= n,
            r@ == s@.subrange(0, i as int),
        decreases n - i,
    {
        r.push(s.get_char(i));
        proof {
            assert(r@ =~= s@.subrange(0, i + 1));
        }
        i = i + 1;
    }
    proof {
        assert(s@.subrange(0, n as int) =~= s@);
    }
    r
}

/// The characters of `s` after simple case folding, collected into a vector.
pub fn lower_chars(s: &str) -> (r: Vec<char>)
    ensures
        r@ == lower_seq(s@),
{
    let n = s.unicode_len();
    let mut r: Vec<char> = Vec::new();
    let mut i: usize = 0;
    while i < n
        invariant
            n == s@.len(),
            i <= n,
            r@ == lower_seq(s@.subrange(0, i as int)),
        decreases n - i,
    {
        r.push(lower_char_exec(s.get_char(i)));
        proof {
            assert(r@ =~= lower_seq(s@.subrange(0, i + 1)));
        }
        i = i + 1;
    }
    proof {
        assert(s@.subrange(0, n as int) =~= s@);
    }
    r
}

/// Whether `needle` occurs in `hay` as a contiguous run starting at index `i`.
pub open spec fn matches_at(hay: Seq<char>, needle: Seq<char>, i: int) -> bool {
    &&& 0 <= i
    &&& i + needle.len() <= hay.len()
    &&& hay.subrange(i, i + needle.len() as int) == needle
}

/// Whether `needle` occurs in `hay` as a contiguous substring.
pub open spec fn contains_sub(hay: Seq<char>, needle: Seq<char>) -> bool {
    exists|i: int| matches_at(hay, needle, i)
}

/// Case folding keeps every substring occurrence: where `needle` occurs in
/// `hay`, the folded `needle` occurs in the folded `hay` at the same place.
pub proof fn lemma_lower_preserves_contains(hay: Seq<char>, needle: Seq<char>)
    ensures
        contains_sub(hay, needle) ==> contains_sub(lower_seq(hay), lower_seq(needle)),
{
    if contains_sub(hay, needle) {
        let i = choose|i: int| matches_at(hay, needle, i);
        let m = needle.len() as int;
        assert forall|k: int| 0 <= k < m implies lower_seq(hay).subrange(i, i + m)[k]
            == lower_seq(needle)[k] by {
            assert(hay.subrange(i, i + m)[k] == hay[i + k]);
        }
        assert(lower_seq(hay).subrange(i, i + m) =~= lower_seq(needle));
        assert(matches_at(lower_seq(hay), lower_seq(needle), i));
    }
}

/// The empty string occurs in every string.
pub proof fn lemma_contains_empty(hay: Seq<char>)
    ensures
        contains_sub(hay, Seq::<char>::empty()),
{
    assert(hay.subrange(0, 0) =~= Seq::<char>::empty());
    assert(matches_at(hay, Seq::<char>::empty(), 0));
}

/// Whether `needle` matches `hay` at position `i`, decided character by
/// character.
fn match_at(hay: &Vec<char>, needle: &Vec<char>, i: usize) -> (r: bool)
    requires
        i + needle@.len() <= hay@.len(),
    ensures
        r == matches_at(hay@, needle@, i as int),
{
    let n = hay.len();
    let m = needle.len();
    let mut j: usize = 0;
    let mut ok: bool = true;
    while j < m
        invariant
            m == needle@.len(),
            i + m <= hay@.len(),
            n == hay@.len(),
            j <= m,
            ok == (forall|k: int| 0 <= k < j ==> hay@[i + k] == needle@[k]),
        decreases m - j,
    {
        if hay[i + j] != needle[j] {
            ok = false;
        }
        j = j + 1;
    }
    proof {
        let sub = hay@.subrange(i as int, i + m as int);
        if ok {
            assert(sub =~= needle@);
        } else {
            let k0 = choose|k: int| 0 <= k < m && hay@[i + k] != needle@[k];
            assert(sub[k0] == hay@[i + k0]);
            assert(sub != needle@);
        }
    }
    ok
}

/// Whether `needle` occurs anywhere in `hay`, by trying every starting
/// position in turn.
pub fn contains_chars(hay: &Vec<char>, needle: &Vec<char>) -> (r: bool)
    ensures
        r == contains_sub(hay@, needle@),
{
    let n = hay.len();
    let m = needle.len();
    if m == 0 {
        proof {
            assert(hay@.subrange(0, 0) =~= needle@);
            assert(matches_at(hay@, needle@, 0));
        }
        return true;
    }
    if m > n {
        proof {
            assert(forall|k: int| !matches_at(hay@, needle@, k));
        }
        return false;
    }
    let mut i: usize = 0;
    while i <= n - m
        invariant
            n == hay@.len(),
            m == needle@.len(),
            0 < m <= n,
            i <= n - m + 1,
            forall|k: int| 0 <= k < i ==> !matches_at(hay@, needle@, k),
        decreases n - m + 1 - i,
    {
        if match_at(hay, needle, i) {
            proof {
                assert(matches_at(hay@, needle@, i as int));
            }
            return true;
        }
        i = i + 1;
    }
    proof {
        assert forall|k: int| !matches_at(hay@, needle@, k) by {
            if 0 <= k < i {
            }
        }
    }
    false
}

/// Whether the character `c` occurs anywhere in `s`.
pub fn contains_char(s: &str, c: char) -> (r: bool)
    ensures
        r == s@.contains(c),
{
    let n = s.unicode_len();
    let mut i: usize = 0;
    while i < n
        invariant
            n == s@.len(),
            i <= n,
            forall|j: int| 0 <= j < i ==> s@[j] != c,
        decreases n - i,
    {
        if s.get_char(i) == c {
            proof {
                assert(s@[i as int] == c);
            }
            return true;
        }
        i = i + 1;
    }
    false
}

/// The lines of `s`: the maximal runs of characters between newline
/// delimiters.  A final newline closes the last line without opening an
/// empty one, so a text that ends in a newline produces no trailing empty
/// line.
pub open spec fn lines_of(s: Seq<char>) -> Seq<Seq<char>>
    decreases s.len(),
{
    if s.len() == 0 {
        Seq::empty()
    } else if s[0] == '\n' {
        seq![Seq::<char>::empty()] + lines_of(s.drop_first())
    } else {
        let rest = lines_of(s.drop_first());
        if rest.len() == 0 {
            seq![seq![s[0]]]
        } else {
            seq![seq![s[0]] + rest[0]] + rest.drop_first()
        }
    }
}

/// A non-empty text without newlines is one single line.
pub proof fn lemma_lines_of_no_newline(s: Seq<char>)
    requires
        s.len() > 0,
        forall|j: int| 0 <= j < s.len() ==> s[j] != '\n',
    ensures
        lines_of(s) == seq![s],
    decreases s.len(),
{
    reveal_with_fuel(lines_of, 2);
    if s.len() == 1 {
        assert(seq![s[0]] =~= s);
    } else {
        let t = s.drop_first();
        assert(forall|j: int| 0 <= j < t.len() ==> t[j] == s[j + 1]);
        lemma_lines_of_no_newline(t);
        let rest = lines_of(t);
        assert(rest == seq![t]);
        assert(seq![s[0]] + rest[0] =~= s);
        assert(rest.drop_first() =~= Seq::<Seq<char>>::empty());
        assert(seq![seq![s[0]] + rest[0]] + rest.drop_first() =~= seq![s]);
    }
}

/// Splitting at the first newline: the text before it is the first line, and
/// the remaining lines are the lines of the text after it.
pub proof fn lemma_lines_of_split(s: Seq<char>, i: int)
    requires
        0 <= i < s.len(),
        s[i] == '\n',
        forall|j: int| 0 <= j < i ==> s[j] != '\n',
    ensures
        lines_of(s) == seq![s.subrange(0, i)] + lines_of(s.subrange(i + 1, s.len() as int)),
    decreases i,
{
    if i == 0 {
        assert(s.subrange(0, 0) =~= Seq::<char>::empty());
        assert(s.subrange(1, s.len() as int) =~= s.drop_first());
    } else {
        let t = s.drop_first();
        assert(forall|j: int| 0 <= j < t.len() ==> t[j] == s[j + 1]);
        lemma_lines_of_split(t, i - 1);
        let rest = lines_of(t);
        assert(rest == seq![t.subrange(0, i - 1)] + lines_of(t.subrange(i, t.len() as int)));
        assert(rest.len() >= 1);
        assert(rest[0] == t.subrange(0, i - 1));
        assert(seq![s[0]] + t.subrange(0, i - 1) =~= s.subrange(0, i));
        assert(rest.drop_first() =~= lines_of(t.subrange(i, t.len() as int)));
        assert(t.subrange(i, t.len() as int) =~= s.subrange(i + 1, s.len() as int));
        assert(seq![seq![s[0]] + rest[0]] + rest.drop_first() =~= seq![s.subrange(0, i)]
            + lines_of(s.subrange(i + 1, s.len() as int)));
    }
}

/// The lines of `contents`, each returned as a slice of the original text.
pub fn split_lines<'a>(contents: &'a str) -> (lines: Vec<&'a str>)
    ensures
        lines.deep_view() == lines_of(contents@),
{
    let n = contents.unicode_len();
    let mut lines: Vec<&'a str> = Vec::new();
    let mut start: usize = 0;
    let mut i: usize = 0;
    proof {
        assert(contents@.subrange(0, n as int) =~= contents@);
        assert(lines.deep_view() + lines_of(contents@) =~= lines_of(contents@));
    }
    while i < n
        invariant
            n == contents@.len(),
            start <= i <= n,
            forall|j: int| start <= j < i ==> contents@[j] != '\n',
            lines.deep_view() + lines_of(contents@.subrange(start as int, n as int))
                == lines_of(contents@),
        decreases n - i,
    {
        if contents.get_char(i) == '\n' {
            let line = contents.substring_char(start, i);
            let ghost prev = lines.deep_view();
            proof {
                let tail = contents@.subrange(start as int, n as int);
                assert(forall|k: int| 0 <= k < tail.len() ==> tail[k] == contents@[start + k]);
                assert(tail[i - start] == '\n');
                lemma_lines_of_split(tail, i - start);
                assert(tail.subrange(0, i - start) =~= line@);
                assert(tail.subrange(i - start + 1, tail.len() as int) =~= contents@.subrange(
                    i + 1,
                    n as int,
                ));
                assert(prev.push(line@) + lines_of(contents@.subrange(i + 1, n as int)) =~= prev
                    + lines_of(tail));
            }
            lines.push(line);
            proof {
                assert(lines.deep_view() =~= prev.push(line@));
            }
            start = i + 1;
        }
        i = i + 1;
    }
    if start < n {
        let line = contents.substring_char(start, n);
        let ghost prev = lines.deep_view();
        proof {
            let tail = contents@.subrange(start as int, n as int);
            assert(forall|k: int| 0 <= k < tail.len() ==> tail[k] == contents@[start + k]);
            lemma_lines_of_no_newline(tail);
            assert(prev.push(line@) =~= prev + lines_of(tail));
        }
        lines.push(line);
        proof {
            assert(lines.deep_view() =~= prev.push(line@));
        }
    } else {
        proof {
            assert(contents@.subrange(start as int, n as int) =~= Seq::<char>::empty());
            assert(lines.deep_view() + lines_of(Seq::<char>::empty()) =~= lines.deep_view());
        }
    }
    lines
}

} // verus!
