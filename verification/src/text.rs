//! Character-level text utilities with their specifications.
//!
//! Text is specified as `Seq<char>`; the executable helpers work on
//! `Vec<char>` buffers and convert to and from `String` at the edges.
use vstd::prelude::*;

verus! {

/// `String::push` appends one character.
pub assume_specification[ String::push ](s: &mut String, ch: char)
    ensures
        final(s)@ == old(s)@.push(ch),
;

// ---------------------------------------------------------------------------
// Character classes
// ---------------------------------------------------------------------------

/// Unicode `White_Space`, the set `char::is_whitespace` tests.
pub open spec fn is_ws(c: char) -> bool {
    ||| c == '\t'
    ||| c == '\n'
    ||| c == '\u{0B}'
    ||| c == '\u{0C}'
    ||| c == '\r'
    ||| c == ' '
    ||| c == '\u{85}'
    ||| c == '\u{A0}'
    ||| c == '\u{1680}'
    ||| ('\u{2000}' <= c && c <= '\u{200A}')
    ||| c == '\u{2028}'
    ||| c == '\u{2029}'
    ||| c == '\u{202F}'
    ||| c == '\u{205F}'
    ||| c == '\u{3000}'
}

/// Executable test of `is_ws`.
pub fn is_whitespace_char(c: char) -> (b: bool)
    ensures
        b == is_ws(c),
{
    c == '\t' || c == '\n' || c == '\u{0B}' || c == '\u{0C}' || c == '\r' || c == ' ' || c
        == '\u{85}' || c == '\u{A0}' || c == '\u{1680}' || ('\u{2000}' <= c && c <= '\u{200A}')
        || c == '\u{2028}' || c == '\u{2029}' || c == '\u{202F}' || c == '\u{205F}' || c
        == '\u{3000}'
}

/// The classes of characters that the trimming functions strip.
#[derive(Clone, Copy, PartialEq, Eq, Structural, Debug)]
pub enum CharClass {
    Whitespace,
    Quote,
    Newline,
}

pub open spec fn in_class(c: char, k: CharClass) -> bool {
    match k {
        CharClass::Whitespace => is_ws(c),
        CharClass::Quote => c == '"',
        CharClass::Newline => c == '\n',
    }
}

pub fn char_in_class(c: char, k: CharClass) -> (b: bool)
    ensures
        b == in_class(c, k),
{
    match k {
        CharClass::Whitespace => is_whitespace_char(c),
        CharClass::Quote => c == '"',
        CharClass::Newline => c == '\n',
    }
}

/// ASCII lowercase of one character (`char::to_ascii_lowercase`).
pub open spec fn lower_char(c: char) -> char {
    if 'A' <= c && c <= 'Z' {
        ((c as u32) + 32) as char
    } else {
        c
    }
}

pub open spec fn lower_seq(s: Seq<char>) -> Seq<char> {
    s.map_values(|c: char| lower_char(c))
}

pub fn lower_char_exec(c: char) -> (r: char)
    ensures
        r == lower_char(c),
{
    if 'A' <= c && c <= 'Z' {
        let n: u32 = (c as u32) + 32;
        assert(0x61 <= n <= 0x7A);
        let b: u8 = n as u8;
        b as char
    } else {
        c
    }
}

// ---------------------------------------------------------------------------
// Conversions between String and Vec<char>
// ---------------------------------------------------------------------------

/// The characters of a string slice, in order.
pub fn chars_of(s: &str) -> (v: Vec<char>)
    ensures
        v@ == s@,
{
    let mut v: Vec<char> = Vec::new();
    for c in it: s.chars()
        invariant
            v@ == it.seq().take(it.index()),
            it.seq() == s@,
    {
        v.push(c);
    }
    v
}

/// A `String` holding the given characters.
pub fn string_of(v: &[char]) -> (s: String)
    ensures
        s@ == v@,
{
    let mut s = String::new();
    let mut i: usize = 0;
    while i < v.len()
        invariant
            i <= v@.len(),
            s@ == v@.take(i as int),
        decreases v@.len() - i,
    {
        s.push(v[i]);
        proof {
            assert(v@.take(i + 1) =~= v@.take(i as int).push(v@[i as int]));
        }
        i = i + 1;
    }
    proof {
        assert(v@.take(v@.len() as int) =~= v@);
    }
    s
}

/// Appends all of `src` to `dst`.
pub fn push_all(dst: &mut Vec<char>, src: &[char])
    ensures
        final(dst)@ == old(dst)@ + src@,
{
    let ghost start = dst@;
    let mut i: usize = 0;
    while i < src.len()
        invariant
            i <= src@.len(),
            dst@ == start + src@.take(i as int),
        decreases src@.len() - i,
    {
        dst.push(src[i]);
        proof {
            assert(src@.take(i + 1) =~= src@.take(i as int).push(src@[i as int]));
            assert(start + src@.take(i + 1) =~= (start + src@.take(i as int)).push(src@[i as int]));
        }
        i = i + 1;
    }
    proof {
        assert(src@.take(src@.len() as int) =~= src@);
    }
}

/// Appends the characters of `src` to `dst`.
pub fn push_str_chars(dst: &mut Vec<char>, src: &str)
    ensures
        final(dst)@ == old(dst)@ + src@,
{
    let v = chars_of(src);
    push_all(dst, v.as_slice());
}

/// A copy of `v[a..b]`.
pub fn sub_vec(v: &[char], a: usize, b: usize) -> (r: Vec<char>)
    requires
        a <= b <= v@.len(),
    ensures
        r@ == v@.subrange(a as int, b as int),
{
    let mut r: Vec<char> = Vec::new();
    let mut i: usize = a;
    while i < b
        invariant
            a <= i <= b,
            b <= v@.len(),
            r@ == v@.subrange(a as int, i as int),
        decreases b - i,
    {
        r.push(v[i]);
        proof {
            assert(v@.subrange(a as int, i + 1) =~= v@.subrange(a as int, i as int).push(
                v@[i as int],
            ));
        }
        i = i + 1;
    }
    r
}

/// Equality of two character sequences.
pub fn chars_eq(a: &[char], b: &[char]) -> (r: bool)
    ensures
        r == (a@ == b@),
{
    if a.len() != b.len() {
        return false;
    }
    let mut i: usize = 0;
    while i < a.len()
        invariant
            a@.len() == b@.len(),
            i <= a@.len(),
            forall|j: int| 0 <= j < i ==> a@[j] == b@[j],
        decreases a@.len() - i,
    {
        if a[i] != b[i] {
            return false;
        }
        i = i + 1;
    }
    proof {
        assert(a@ =~= b@);
    }
    true
}

/// Equality of two string slices.
pub fn str_eq(a: &str, b: &str) -> (r: bool)
    ensures
        r == (a@ == b@),
{
    let va = chars_of(a);
    let vb = chars_of(b);
    chars_eq(va.as_slice(), vb.as_slice())
}

/// Whether a character sequence equals a string slice.
pub fn chars_eq_str(a: &[char], b: &str) -> (r: bool)
    ensures
        r == (a@ == b@),
{
    let vb = chars_of(b);
    chars_eq(a, vb.as_slice())
}

/// ASCII lowercase of a whole sequence (`to_ascii_lowercase`).
pub fn lower_vec(v: &[char]) -> (r: Vec<char>)
    ensures
        r@ == lower_seq(v@),
{
    let mut r: Vec<char> = Vec::new();
    let mut i: usize = 0;
    while i < v.len()
        invariant
            i <= v@.len(),
            r@ == lower_seq(v@.take(i as int)),
        decreases v@.len() - i,
    {
        let c = lower_char_exec(v[i]);
        r.push(c);
        proof {
            assert(lower_seq(v@.take(i + 1)) =~= lower_seq(v@.take(i as int)).push(
                lower_char(v@[i as int]),
            ));
        }
        i = i + 1;
    }
    proof {
        assert(v@.take(v@.len() as int) =~= v@);
    }
    r
}

// ---------------------------------------------------------------------------
// Searching
// ---------------------------------------------------------------------------

/// The first index at or after `i` holding `c`, or the length when there is none.
pub open spec fn find_char_from(s: Seq<char>, c: char, i: int) -> int
    decreases s.len() - i,
{
    if i < 0 || i >= s.len() {
        s.len() as int
    } else if s[i] == c {
        i
    } else {
        find_char_from(s, c, i + 1)
    }
}

pub proof fn lemma_find_char_from(s: Seq<char>, c: char, i: int)
    requires
        0 <= i <= s.len(),
    ensures
        i <= find_char_from(s, c, i) <= s.len(),
        find_char_from(s, c, i) < s.len() ==> s[find_char_from(s, c, i)] == c,
        forall|k: int| i <= k < find_char_from(s, c, i) ==> s[k] != c,
    decreases s.len() - i,
{
    if i < s.len() && s[i] != c {
        lemma_find_char_from(s, c, i + 1);
    }
}

/// Executable `find_char_from`.
pub fn find_char(v: &[char], c: char, start: usize) -> (r: usize)
    requires
        start <= v@.len(),
    ensures
        r as int == find_char_from(v@, c, start as int),
{
    let mut j: usize = start;
    while j < v.len() && v[j] != c
        invariant
            start <= j <= v@.len(),
            find_char_from(v@, c, start as int) == find_char_from(v@, c, j as int),
        decreases v@.len() - j,
    {
        j = j + 1;
    }
    j
}

pub open spec fn contains_char(s: Seq<char>, c: char) -> bool {
    exists|i: int| 0 <= i < s.len() && s[i] == c
}

/// Whether `c` occurs in `v`.
pub fn has_char(v: &[char], c: char) -> (b: bool)
    ensures
        b == contains_char(v@, c),
{
    let j = find_char(v, c, 0);
    proof {
        lemma_find_char_from(v@, c, 0);
    }
    j < v.len()
}

pub open spec fn is_prefix(p: Seq<char>, s: Seq<char>) -> bool {
    p.len() <= s.len() && s.subrange(0, p.len() as int) == p
}

pub open spec fn is_suffix(p: Seq<char>, s: Seq<char>) -> bool {
    p.len() <= s.len() && s.subrange(s.len() - p.len(), s.len() as int) == p
}

/// Whether `v[at..]` begins with `p`.
pub fn matches_at(v: &[char], p: &[char], at: usize) -> (b: bool)
    requires
        at <= v@.len(),
    ensures
        b == is_prefix(p@, v@.subrange(at as int, v@.len() as int)),
{
    if p.len() > v.len() - at {
        return false;
    }
    let mut i: usize = 0;
    while i < p.len()
        invariant
            i <= p@.len(),
            at + p@.len() <= v@.len(),
            v@.len() == v.len(),
            p@.len() == p.len(),
            forall|j: int| 0 <= j < i ==> v@[at + j] == p@[j],
        decreases p@.len() - i,
    {
        if v[at + i] != p[i] {
            proof {
                assert(v@.subrange(at as int, v@.len() as int).subrange(0, p@.len() as int)[i as int]
                    != p@[i as int]);
            }
            return false;
        }
        i = i + 1;
    }
    proof {
        assert(v@.subrange(at as int, v@.len() as int).subrange(0, p@.len() as int) =~= p@);
    }
    true
}

/// `str::starts_with` on character buffers.
pub fn starts_with(v: &[char], p: &[char]) -> (b: bool)
    ensures
        b == is_prefix(p@, v@),
{
    let b = matches_at(v, p, 0);
    proof {
        assert(v@.subrange(0, v@.len() as int) =~= v@);
    }
    b
}

/// `str::ends_with` on character buffers.
pub fn ends_with(v: &[char], p: &[char]) -> (b: bool)
    ensures
        b == is_suffix(p@, v@),
{
    if p.len() > v.len() {
        return false;
    }
    let at = v.len() - p.len();
    let b = matches_at(v, p, at);
    proof {
        assert(v@.subrange(at as int, v@.len() as int).subrange(0, p@.len() as int)
            =~= v@.subrange(at as int, v@.len() as int));
    }
    b
}

// ---------------------------------------------------------------------------
// Trimming
// ---------------------------------------------------------------------------

/// The first index at or after `i` whose character is not in class `k`.
pub open spec fn skip_class(s: Seq<char>, k: CharClass, i: int) -> int
    decreases s.len() - i,
{
    if i < 0 || i >= s.len() {
        s.len() as int
    } else if in_class(s[i], k) {
        skip_class(s, k, i + 1)
    } else {
        i
    }
}

/// The smallest `e <= j` such that every character in `s[e..j]` is in class `k`.
pub open spec fn skip_class_back(s: Seq<char>, k: CharClass, j: int) -> int
    decreases j,
{
    if j <= 0 || j > s.len() {
        0
    } else if in_class(s[j - 1], k) {
        skip_class_back(s, k, j - 1)
    } else {
        j
    }
}

pub open spec fn trim_start_class(s: Seq<char>, k: CharClass) -> Seq<char> {
    s.subrange(skip_class(s, k, 0), s.len() as int)
}

pub open spec fn trim_end_class(s: Seq<char>, k: CharClass) -> Seq<char> {
    s.subrange(0, skip_class_back(s, k, s.len() as int))
}

/// Both ends stripped of class `k` (`str::trim_matches`).
pub open spec fn trim_class(s: Seq<char>, k: CharClass) -> Seq<char> {
    trim_end_class(trim_start_class(s, k), k)
}

/// `str::trim`.
pub open spec fn trim(s: Seq<char>) -> Seq<char> {
    trim_class(s, CharClass::Whitespace)
}

pub proof fn lemma_skip_class(s: Seq<char>, k: CharClass, i: int)
    requires
        0 <= i <= s.len(),
    ensures
        i <= skip_class(s, k, i) <= s.len(),
        skip_class(s, k, i) < s.len() ==> !in_class(s[skip_class(s, k, i)], k),
        forall|m: int| i <= m < skip_class(s, k, i) ==> in_class(s[m], k),
    decreases s.len() - i,
{
    if i < s.len() && in_class(s[i], k) {
        lemma_skip_class(s, k, i + 1);
    }
}

pub proof fn lemma_skip_class_back(s: Seq<char>, k: CharClass, j: int)
    requires
        0 <= j <= s.len(),
    ensures
        0 <= skip_class_back(s, k, j) <= j,
        skip_class_back(s, k, j) > 0 ==> !in_class(s[skip_class_back(s, k, j) - 1], k),
        forall|m: int| skip_class_back(s, k, j) <= m < j ==> in_class(s[m], k),
    decreases j,
{
    if j > 0 && in_class(s[j - 1], k) {
        lemma_skip_class_back(s, k, j - 1);
    }
}

/// Executable `skip_class`.
pub fn skip_class_exec(v: &[char], k: CharClass, start: usize) -> (r: usize)
    requires
        start <= v@.len(),
    ensures
        r as int == skip_class(v@, k, start as int),
{
    let mut j: usize = start;
    while j < v.len() && char_in_class(v[j], k)
        invariant
            start <= j <= v@.len(),
            skip_class(v@, k, start as int) == skip_class(v@, k, j as int),
        decreases v@.len() - j,
    {
        j = j + 1;
    }
    j
}

/// Executable `skip_class_back`.
pub fn skip_class_back_exec(v: &[char], k: CharClass, end: usize) -> (r: usize)
    requires
        end <= v@.len(),
    ensures
        r as int == skip_class_back(v@, k, end as int),
{
    let mut j: usize = end;
    while j > 0 && char_in_class(v[j - 1], k)
        invariant
            j <= end <= v@.len(),
            skip_class_back(v@, k, end as int) == skip_class_back(v@, k, j as int),
        decreases j,
    {
        j = j - 1;
    }
    j
}

pub fn trim_start_vec(v: &[char], k: CharClass) -> (r: Vec<char>)
    ensures
        r@ == trim_start_class(v@, k),
{
    let a = skip_class_exec(v, k, 0);
    proof {
        lemma_skip_class(v@, k, 0);
    }
    sub_vec(v, a, v.len())
}

pub fn trim_end_vec(v: &[char], k: CharClass) -> (r: Vec<char>)
    ensures
        r@ == trim_end_class(v@, k),
{
    let b = skip_class_back_exec(v, k, v.len());
    proof {
        lemma_skip_class_back(v@, k, v@.len() as int);
    }
    sub_vec(v, 0, b)
}

pub fn trim_vec(v: &[char], k: CharClass) -> (r: Vec<char>)
    ensures
        r@ == trim_class(v@, k),
{
    let s = trim_start_vec(v, k);
    trim_end_vec(s.as_slice(), k)
}

/// Whether a sequence has only whitespace (`s.trim().is_empty()`).
pub open spec fn is_blank(s: Seq<char>) -> bool {
    forall|i: int| 0 <= i < s.len() ==> is_ws(#[trigger] s[i])
}

pub fn blank_vec(v: &[char]) -> (b: bool)
    ensures
        b == is_blank(v@),
{
    let a = skip_class_exec(v, CharClass::Whitespace, 0);
    proof {
        lemma_skip_class(v@, CharClass::Whitespace, 0);
    }
    a == v.len()
}


// ---------------------------------------------------------------------------
// Words and whitespace normalisation
// ---------------------------------------------------------------------------

/// The first index at or after `i` whose character is in class `k`, or the length.
pub open spec fn seek_class(s: Seq<char>, k: CharClass, i: int) -> int
    decreases s.len() - i,
{
    if i < 0 || i >= s.len() {
        s.len() as int
    } else if in_class(s[i], k) {
        i
    } else {
        seek_class(s, k, i + 1)
    }
}

pub proof fn lemma_seek_class(s: Seq<char>, k: CharClass, i: int)
    requires
        0 <= i <= s.len(),
    ensures
        i <= seek_class(s, k, i) <= s.len(),
        seek_class(s, k, i) < s.len() ==> in_class(s[seek_class(s, k, i)], k),
        forall|m: int| i <= m < seek_class(s, k, i) ==> !in_class(s[m], k),
    decreases s.len() - i,
{
    if i < s.len() && !in_class(s[i], k) {
        lemma_seek_class(s, k, i + 1);
    }
}

pub fn seek_class_exec(v: &[char], k: CharClass, start: usize) -> (r: usize)
    requires
        start <= v@.len(),
    ensures
        r as int == seek_class(v@, k, start as int),
{
    let mut j: usize = start;
    while j < v.len() && !char_in_class(v[j], k)
        invariant
            start <= j <= v@.len(),
            seek_class(v@, k, start as int) == seek_class(v@, k, j as int),
        decreases v@.len() - j,
    {
        j = j + 1;
    }
    j
}

/// The whitespace-separated words of `s[i..]` (`str::split_whitespace`).
pub open spec fn words_from(s: Seq<char>, i: int) -> Seq<Seq<char>>
    decreases s.len() - i,
{
    if i < 0 || i >= s.len() {
        Seq::empty()
    } else if is_ws(s[i]) {
        words_from(s, i + 1)
    } else {
        let b = seek_class(s, CharClass::Whitespace, i + 1);
        proof {
            lemma_seek_class(s, CharClass::Whitespace, i + 1);
        }
        seq![s.subrange(i, b)] + words_from(s, b)
    }
}

pub open spec fn words(s: Seq<char>) -> Seq<Seq<char>> {
    words_from(s, 0)
}

/// Parts joined with a separator (`[&str]::join`).
pub open spec fn join(parts: Seq<Seq<char>>, sep: Seq<char>) -> Seq<char>
    decreases parts.len(),
{
    if parts.len() == 0 {
        Seq::empty()
    } else if parts.len() == 1 {
        parts[0]
    } else {
        join(parts.drop_last(), sep) + sep + parts.last()
    }
}

/// Words joined by single spaces: `split_whitespace().collect::<Vec<_>>().join(" ")`.
pub open spec fn normalize_space_spec(s: Seq<char>) -> Seq<char> {
    join(words(s), seq![' '])
}

pub proof fn lemma_join_push(parts: Seq<Seq<char>>, sep: Seq<char>, w: Seq<char>)
    ensures
        join(parts.push(w), sep) == if parts.len() == 0 {
            w
        } else {
            join(parts, sep) + sep + w
        },
{
    assert(parts.push(w).drop_last() =~= parts);
}

/// Executable `normalize_space_spec`.
pub fn normalize_space_vec(v: &[char]) -> (r: Vec<char>)
    ensures
        r@ == normalize_space_spec(v@),
{
    let mut out: Vec<char> = Vec::new();
    let ghost mut done: Seq<Seq<char>> = Seq::empty();
    let mut i: usize = 0;
    let mut first = true;
    while i < v.len()
        invariant
            i <= v@.len(),
            first == (done.len() == 0),
            words(v@) == done + words_from(v@, i as int),
            out@ == join(done, seq![' ']),
        decreases v@.len() - i,
    {
        if is_whitespace_char(v[i]) {
            i = i + 1;
        } else {
            let b = seek_class_exec(v, CharClass::Whitespace, i + 1);
            proof {
                lemma_seek_class(v@, CharClass::Whitespace, i + 1);
            }
            let w = sub_vec(v, i, b);
            proof {
                lemma_join_push(done, seq![' '], w@);
                assert(words_from(v@, i as int) == seq![w@] + words_from(v@, b as int));
                assert(done + words_from(v@, i as int) =~= done.push(w@) + words_from(
                    v@,
                    b as int,
                ));
            }
            if !first {
                out.push(' ');
            } else {
                proof {
                    assert(done.len() == 0);
                    assert(out@ =~= Seq::<char>::empty());
                }
            }
            push_all(&mut out, w.as_slice());
            proof {
                if done.len() > 0 {
                    assert(out@ =~= join(done, seq![' ']) + seq![' '] + w@);
                } else {
                    assert(out@ =~= w@);
                }
                done = done.push(w@);
            }
            first = false;
            i = b;
        }
    }
    proof {
        assert(done + Seq::<Seq<char>>::empty() =~= done);
    }
    out
}

/// Collapses runs of whitespace to single spaces and drops leading and
/// trailing whitespace.
pub fn normalize_space(value: &str) -> (r: String)
    ensures
        r@ == normalize_space_spec(value@),
{
    let v = chars_of(value);
    let n = normalize_space_vec(v.as_slice());
    string_of(n.as_slice())
}

/// Joins parts with a separator (`parts.join(sep)`).
pub fn join_exec(parts: &Vec<Vec<char>>, sep: &[char]) -> (r: Vec<char>)
    ensures
        r@ == join(vviews(parts@), sep@),
{
    let mut out: Vec<char> = Vec::new();
    let mut i: usize = 0;
    while i < parts.len()
        invariant
            i <= parts@.len(),
            out@ == join(vviews(parts@).take(i as int), sep@),
        decreases parts@.len() - i,
    {
        let ghost before = vviews(parts@).take(i as int);
        proof {
            lemma_join_push(before, sep@, parts@[i as int]@);
            assert(vviews(parts@).take(i + 1) =~= before.push(parts@[i as int]@));
        }
        if i > 0 {
            push_all(&mut out, sep);
        }
        push_all(&mut out, parts[i].as_slice());
        proof {
            if i > 0 {
                assert(out@ =~= join(before, sep@) + sep@ + parts@[i as int]@);
            } else {
                assert(out@ =~= parts@[i as int]@);
            }
        }
        i = i + 1;
    }
    proof {
        assert(vviews(parts@).take(parts@.len() as int) =~= vviews(parts@));
    }
    out
}

// ---------------------------------------------------------------------------
// Lines and splitting
// ---------------------------------------------------------------------------

pub open spec fn strip_cr(t: Seq<char>) -> Seq<char> {
    if t.len() > 0 && t.last() == '\r' {
        t.drop_last()
    } else {
        t
    }
}

/// The lines of `s[i..]` as `str::lines` yields them: split after each `'\n'`,
/// with the `'\n'` and a `'\r'` right before it removed.
pub open spec fn lines_from(s: Seq<char>, i: int) -> Seq<Seq<char>>
    decreases s.len() - i,
{
    if i < 0 || i >= s.len() {
        Seq::empty()
    } else {
        let j = find_char_from(s, '\n', i);
        proof {
            lemma_find_char_from(s, '\n', i);
        }
        let piece = s.subrange(i, j);
        if j < s.len() {
            seq![strip_cr(piece)] + lines_from(s, j + 1)
        } else {
            seq![piece]
        }
    }
}

pub open spec fn lines(s: Seq<char>) -> Seq<Seq<char>> {
    lines_from(s, 0)
}

pub open spec fn vviews(v: Seq<Vec<char>>) -> Seq<Seq<char>> {
    v.map_values(|x: Vec<char>| x@)
}

/// Executable `lines`.
pub fn lines_vec(v: &[char]) -> (r: Vec<Vec<char>>)
    ensures
        vviews(r@) == lines(v@),
{
    let mut out: Vec<Vec<char>> = Vec::new();
    let mut i: usize = 0;
    while i < v.len()
        invariant
            i <= v@.len(),
            lines(v@) == vviews(out@) + lines_from(v@, i as int),
        decreases v@.len() - i,
    {
        let j = find_char(v, '\n', i);
        proof {
            lemma_find_char_from(v@, '\n', i as int);
        }
        let mut piece = sub_vec(v, i, j);
        if j < v.len() && piece.len() > 0 && piece[piece.len() - 1] == '\r' {
            piece.pop();
            proof {
                assert(piece@ =~= strip_cr(v@.subrange(i as int, j as int)));
            }
        }
        proof {
            let ghost line = if j < v@.len() {
                strip_cr(v@.subrange(i as int, j as int))
            } else {
                v@.subrange(i as int, j as int)
            };
            assert(piece@ == line);
            if j < v@.len() {
                assert(lines_from(v@, i as int) == seq![line] + lines_from(v@, j + 1));
            } else {
                assert(lines_from(v@, i as int) =~= seq![line] + lines_from(v@, j as int));
            }
        }
        let ghost before = out@;
        out.push(piece);
        proof {
            assert(vviews(out@) =~= vviews(before).push(out@.last()@));
            if j < v@.len() {
                assert(vviews(before) + lines_from(v@, i as int) =~= vviews(out@) + lines_from(
                    v@,
                    j + 1,
                ));
            } else {
                assert(vviews(before) + lines_from(v@, i as int) =~= vviews(out@) + lines_from(
                    v@,
                    j as int,
                ));
            }
        }
        if j == v.len() {
            i = j;
        } else {
            i = j + 1;
        }
    }
    proof {
        assert(vviews(out@) + Seq::<Seq<char>>::empty() =~= vviews(out@));
    }
    out
}

/// `str::split_once(c)`: the parts before and after the first `c`.
pub open spec fn split_once_spec(s: Seq<char>, c: char) -> Option<(Seq<char>, Seq<char>)> {
    let p = find_char_from(s, c, 0);
    if p < s.len() {
        Some((s.subrange(0, p), s.subrange(p + 1, s.len() as int)))
    } else {
        None
    }
}

pub fn split_once_vec(v: &[char], c: char) -> (r: Option<(Vec<char>, Vec<char>)>)
    ensures
        match r {
            Some((a, b)) => split_once_spec(v@, c) == Some((a@, b@)),
            None => split_once_spec(v@, c) is None,
        },
{
    let p = find_char(v, c, 0);
    proof {
        lemma_find_char_from(v@, c, 0);
    }
    if p < v.len() {
        let a = sub_vec(v, 0, p);
        let b = sub_vec(v, p + 1, v.len());
        Some((a, b))
    } else {
        None
    }
}

// ---------------------------------------------------------------------------
// Excerpts
// ---------------------------------------------------------------------------

/// An excerpt of at most 200 bytes' worth: the text itself when its UTF-8
/// encoding is at most 200 bytes long, else its first 200 characters and "...".
pub open spec fn snippet_spec(s: Seq<char>) -> Seq<char> {
    if vstd::utf8::encode_utf8(s).len() <= 200 {
        s
    } else {
        (if s.len() <= 200 {
            s
        } else {
            s.take(200)
        }) + seq!['.', '.', '.']
    }
}

/// Whether the UTF-8 encoding of `v` is at most `limit` bytes long.
pub fn utf8_len_at_most(v: &[char], limit: u64) -> (b: bool)
    ensures
        b == (vstd::utf8::encode_utf8(v@).len() <= limit),
{
    let mut acc: u64 = 0;
    let mut i: usize = 0;
    proof {
        assert(v@.skip(0) =~= v@);
    }
    while i < v.len()
        invariant
            i <= v@.len(),
            acc <= limit,
            acc + vstd::utf8::encode_utf8(v@.skip(i as int)).len() == vstd::utf8::encode_utf8(
                v@,
            ).len(),
        decreases v@.len() - i,
    {
        let c = v[i];
        let u = c as u32;
        proof {
            vstd::utf8::char_is_scalar(c);
            assert(v@.skip(i as int).drop_first() =~= v@.skip(i + 1));
            assert(v@.skip(i as int)[0] == c);
        }
        let w: u64 = if u <= 0x7F {
            1
        } else if u <= 0x7FF {
            2
        } else if u <= 0xFFFF {
            3
        } else {
            4
        };
        assert(w == vstd::utf8::encode_scalar(u).len());
        if w > limit - acc {
            return false;
        }
        acc = acc + w;
        i = i + 1;
    }
    proof {
        assert(v@.skip(v@.len() as int) =~= Seq::<char>::empty());
    }
    true
}

/// A short excerpt of a message for history records.
pub fn snippet(value: &str) -> (r: String)
    ensures
        r@ == snippet_spec(value@),
{
    let v = chars_of(value);
    if utf8_len_at_most(v.as_slice(), 200) {
        return string_of(v.as_slice());
    }
    let keep: usize = if v.len() <= 200 {
        v.len()
    } else {
        200
    };
    let mut out = sub_vec(v.as_slice(), 0, keep);
    out.push('.');
    out.push('.');
    out.push('.');
    proof {
        if value@.len() <= 200 {
            assert(value@.subrange(0, keep as int) =~= value@);
        }
        assert(out@ =~= snippet_spec(value@));
    }
    string_of(out.as_slice())
}


// ---------------------------------------------------------------------------
// Lemmas for reading back what was written
// ---------------------------------------------------------------------------

/// `find_char_from` is the first position holding `c`.
pub proof fn lemma_find_char_at(s: Seq<char>, c: char, i: int, m: int)
    requires
        0 <= i <= m <= s.len(),
        forall|k: int| i <= k < m ==> s[k] != c,
        m < s.len() ==> s[m] == c,
    ensures
        find_char_from(s, c, i) == m,
    decreases m - i,
{
    if i < m {
        lemma_find_char_at(s, c, i + 1, m);
    }
}

/// Joining two non-empty lists of parts.
pub proof fn lemma_join_concat(a: Seq<Seq<char>>, b: Seq<Seq<char>>, sep: Seq<char>)
    requires
        a.len() > 0,
        b.len() > 0,
    ensures
        join(a + b, sep) == join(a, sep) + sep + join(b, sep),
    decreases b.len(),
{
    if b.len() == 1 {
        assert((a + b).drop_last() =~= a);
        assert((a + b).last() == b[0]);
    } else {
        lemma_join_concat(a, b.drop_last(), sep);
        assert((a + b).drop_last() =~= a + b.drop_last());
        assert((a + b).last() == b.last());
        assert(join(a, sep) + sep + join(b.drop_last(), sep) + sep + b.last() =~= join(a, sep) + sep
            + (join(b.drop_last(), sep) + sep + b.last()));
    }
}

/// Joining a list of at least two parts, seen from the front.
pub proof fn lemma_join_first(l: Seq<Seq<char>>, sep: Seq<char>)
    requires
        l.len() >= 2,
    ensures
        join(l, sep) == l[0] + sep + join(l.drop_first(), sep),
{
    lemma_join_concat(seq![l[0]], l.drop_first(), sep);
    assert(seq![l[0]] + l.drop_first() =~= l);
}

/// A line that `lines` gives back unchanged.
pub open spec fn line_ok(l: Seq<char>) -> bool {
    !contains_char(l, '\n') && (l.len() == 0 || l.last() != '\r')
}

/// Lines joined by `'\n'`, each followed by a line break, read back as the same lines.
pub proof fn lemma_lines_of_join(s: Seq<char>, i: int, ls: Seq<Seq<char>>)
    requires
        0 <= i <= s.len(),
        ls.len() >= 1,
        forall|k: int| 0 <= k < ls.len() ==> line_ok(#[trigger] ls[k]),
        s.subrange(i, s.len() as int) == join(ls, seq!['\n']) + seq!['\n'],
    ensures
        lines_from(s, i) == ls,
    decreases ls.len(),
{
    let l0 = ls[0];
    assert(line_ok(l0));
    let m = i + l0.len();
    let t = s.subrange(i, s.len() as int);
    if ls.len() == 1 {
        assert(t =~= l0 + seq!['\n']);
    } else {
        lemma_join_first(ls, seq!['\n']);
        assert(t =~= l0 + (seq!['\n'] + join(ls.drop_first(), seq!['\n']) + seq!['\n']));
    }
    assert(t.len() > l0.len());
    assert(m < s.len());
    assert forall|k: int| i <= k < m implies s[k] != '\n' by {
        assert(s[k] == t[k - i]);
        assert(t[k - i] == l0[k - i]);
        if s[k] == '\n' {
            assert(contains_char(l0, '\n'));
        }
    }
    assert(s[m] == t[m - i]);
    assert(t[m - i] == '\n');
    lemma_find_char_at(s, '\n', i, m);
    assert(s.subrange(i, m) =~= l0);
    if ls.len() == 1 {
        assert(m + 1 == s.len());
        assert(strip_cr(l0) == l0);
        assert(lines_from(s, m + 1) == Seq::<Seq<char>>::empty());
        assert(lines_from(s, i) =~= seq![l0]);
    } else {
        let rest = ls.drop_first();
        assert(s.subrange(m + 1, s.len() as int) =~= join(rest, seq!['\n']) + seq!['\n']) by {
            assert(t.subrange(l0.len() + 1int, t.len() as int) =~= join(rest, seq!['\n']) + seq!['\n']);
        }
        assert forall|k: int| 0 <= k < rest.len() implies line_ok(#[trigger] rest[k]) by {
            assert(rest[k] == ls[k + 1]);
        }
        lemma_lines_of_join(s, m + 1, rest);
        assert(lines_from(s, i) =~= seq![l0] + rest);
        assert(seq![l0] + rest =~= ls);
    }
}

/// Whether `s` has three dashes in a row at `i`.
pub open spec fn triple_dash_at(s: Seq<char>, i: int) -> bool {
    s[i] == '-' && s[i + 1] == '-' && s[i + 2] == '-'
}

/// Whether `s` holds no `---`.
pub open spec fn no_triple_dash(s: Seq<char>) -> bool {
    forall|i: int| 0 <= i && i + 2 < s.len() ==> !#[trigger] triple_dash_at(s, i)
}

/// Text without dashes around a separator without dashes holds no `---`.
pub proof fn lemma_no_triple_concat3(a: Seq<char>, sep: Seq<char>, b: Seq<char>)
    requires
        no_triple_dash(a),
        no_triple_dash(b),
        sep.len() >= 1,
        forall|k: int| 0 <= k < sep.len() ==> sep[k] != '-',
    ensures
        no_triple_dash(a + sep + b),
{
    let s = a + sep + b;
    assert forall|i: int| 0 <= i && i + 2 < s.len() implies !#[trigger] triple_dash_at(s, i) by {
        if i + 2 < a.len() {
            assert(s[i] == a[i] && s[i + 1] == a[i + 1] && s[i + 2] == a[i + 2]);
            assert(!triple_dash_at(a, i));
        } else if i >= a.len() + sep.len() {
            let j = i - a.len() - sep.len();
            assert(s[i] == b[j] && s[i + 1] == b[j + 1] && s[i + 2] == b[j + 2]);
            assert(!triple_dash_at(b, j));
        } else {
            let p = if i >= a.len() {
                i
            } else {
                a.len() as int
            };
            assert(s[p] == sep[p - a.len()]);
        }
    }
}

/// Lines without `---` joined by line breaks hold no `---`.
pub proof fn lemma_no_triple_join(ls: Seq<Seq<char>>)
    requires
        forall|k: int| 0 <= k < ls.len() ==> no_triple_dash(#[trigger] ls[k]),
    ensures
        no_triple_dash(join(ls, seq!['\n'])),
    decreases ls.len(),
{
    if ls.len() == 0 {
    } else if ls.len() == 1 {
        assert(no_triple_dash(ls[0]));
    } else {
        assert forall|k: int| 0 <= k < ls.drop_last().len() implies no_triple_dash(
            #[trigger] ls.drop_last()[k],
        ) by {
            assert(ls.drop_last()[k] == ls[k]);
        }
        lemma_no_triple_join(ls.drop_last());
        assert(no_triple_dash(ls.last()));
        lemma_no_triple_concat3(join(ls.drop_last(), seq!['\n']), seq!['\n'], ls.last());
    }
}

/// Text with no class-`k` character at either end is its own trim.
pub proof fn lemma_trim_class_clean(v: Seq<char>, k: CharClass)
    requires
        v.len() == 0 || (!in_class(v[0], k) && !in_class(v.last(), k)),
    ensures
        trim_class(v, k) == v,
{
    assert(skip_class(v, k, 0) == 0);
    assert(v.subrange(0, v.len() as int) =~= v);
    assert(skip_class_back(v, k, v.len() as int) == v.len());
    assert(v.subrange(0, v.len() as int) =~= v);
}

/// Text whose ends are neither whitespace nor a double quote.
pub open spec fn edge_clean(v: Seq<char>) -> bool {
    v.len() == 0 || (!is_ws(v[0]) && !is_ws(v.last()) && v[0] != '"' && v.last() != '"')
}

/// A value written after `": "` is read back as itself when its ends are clean.
pub proof fn lemma_read_bare(v: Seq<char>)
    requires
        edge_clean(v),
    ensures
        trim_class(trim_class(seq![' '] + v, CharClass::Whitespace), CharClass::Quote) == v,
{
    let s = seq![' '] + v;
    if v.len() == 0 {
        assert(skip_class(s, CharClass::Whitespace, 1) == 1);
        assert(skip_class(s, CharClass::Whitespace, 0) == 1);
        assert(trim_start_class(s, CharClass::Whitespace) =~= Seq::<char>::empty());
        assert(trim_class(s, CharClass::Whitespace) =~= Seq::<char>::empty());
        lemma_trim_class_clean(Seq::<char>::empty(), CharClass::Quote);
    } else {
        assert(s[1] == v[0]);
        assert(skip_class(s, CharClass::Whitespace, 1) == 1);
        assert(skip_class(s, CharClass::Whitespace, 0) == 1);
        assert(trim_start_class(s, CharClass::Whitespace) =~= v);
        lemma_trim_class_clean(v, CharClass::Whitespace);
        lemma_trim_class_clean(v, CharClass::Quote);
    }
}

/// A value written after `": "` between double quotes is read back as itself
/// when it neither starts nor ends with a double quote.
pub proof fn lemma_read_quoted(v: Seq<char>)
    requires
        v.len() == 0 || (v[0] != '"' && v.last() != '"'),
    ensures
        trim_class(trim_class(seq![' '] + (seq!['"'] + v + seq!['"']), CharClass::Whitespace), CharClass::Quote) == v,
{
    let q = seq!['"'] + v + seq!['"'];
    let s = seq![' '] + q;
    assert(s[1] == '"');
    assert(skip_class(s, CharClass::Whitespace, 1) == 1);
    assert(skip_class(s, CharClass::Whitespace, 0) == 1);
    assert(trim_start_class(s, CharClass::Whitespace) =~= q);
    assert(q[0] == '"' && q.last() == '"');
    assert(skip_class_back(q, CharClass::Whitespace, q.len() as int) == q.len());
    assert(q.subrange(0, q.len() as int) =~= q);
    assert(trim_class(s, CharClass::Whitespace) == q);
    if v.len() == 0 {
        assert(skip_class(q, CharClass::Quote, 2) == 2);
        assert(skip_class(q, CharClass::Quote, 1) == 2);
        assert(skip_class(q, CharClass::Quote, 0) == 2);
        assert(trim_start_class(q, CharClass::Quote) =~= Seq::<char>::empty());
        assert(trim_class(q, CharClass::Quote) =~= v);
    } else {
        assert(q[1] == v[0]);
        assert(skip_class(q, CharClass::Quote, 1) == 1);
        assert(skip_class(q, CharClass::Quote, 0) == 1);
        let t = trim_start_class(q, CharClass::Quote);
        assert(t =~= v + seq!['"']);
        assert(t[t.len() - 2] == v.last());
        assert(skip_class_back(t, CharClass::Quote, t.len() - 1) == t.len() - 1);
        assert(skip_class_back(t, CharClass::Quote, t.len() as int) == t.len() - 1);
        assert(trim_end_class(t, CharClass::Quote) =~= v);
    }
}

// ---------------------------------------------------------------------------
// Properties of whitespace normalisation
// ---------------------------------------------------------------------------

/// A word: not empty, and no whitespace in it.
pub open spec fn is_word(w: Seq<char>) -> bool {
    w.len() > 0 && forall|j: int| 0 <= j < w.len() ==> !is_ws(#[trigger] w[j])
}

/// The words `split_whitespace` gives are words.
pub proof fn lemma_words_are_words(s: Seq<char>, i: int)
    requires
        0 <= i <= s.len(),
    ensures
        forall|k: int| 0 <= k < words_from(s, i).len() ==> is_word(#[trigger] words_from(s, i)[k]),
    decreases s.len() - i,
{
    if i < s.len() {
        if is_ws(s[i]) {
            lemma_words_are_words(s, i + 1);
            assert(words_from(s, i) == words_from(s, i + 1));
        } else {
            let b = seek_class(s, CharClass::Whitespace, i + 1);
            lemma_seek_class(s, CharClass::Whitespace, i + 1);
            lemma_words_are_words(s, b);
            assert(words_from(s, i) == seq![s.subrange(i, b)] + words_from(s, b));
            let w = s.subrange(i, b);
            assert forall|j: int| 0 <= j < w.len() implies !is_ws(#[trigger] w[j]) by {
                assert(w[j] == s[i + j]);
                if j > 0 {
                    assert(!in_class(s[i + j], CharClass::Whitespace));
                }
            }
            let ws = words_from(s, i);
            assert forall|k: int| 0 <= k < ws.len() implies is_word(#[trigger] ws[k]) by {
                if k == 0 {
                    assert(ws[0] == w);
                } else {
                    assert(ws[k] == words_from(s, b)[k - 1]);
                }
            }
        }
    }
}

/// Words joined by single spaces split back into the same words.
pub proof fn lemma_words_of_join(s: Seq<char>, i: int, ws: Seq<Seq<char>>)
    requires
        0 <= i <= s.len(),
        forall|k: int| 0 <= k < ws.len() ==> is_word(#[trigger] ws[k]),
        s.subrange(i, s.len() as int) == join(ws, seq![' ']),
    ensures
        words_from(s, i) == ws,
    decreases ws.len(),
{
    if ws.len() == 0 {
        assert(s.subrange(i, s.len() as int).len() == 0);
        assert(words_from(s, i) =~= ws);
    } else {
        let w = ws[0];
        assert(is_word(w));
        let t = s.subrange(i, s.len() as int);
        if ws.len() == 1 {
            assert(t == w);
        } else {
            lemma_join_first(ws, seq![' ']);
            assert(t =~= w + (seq![' '] + join(ws.drop_first(), seq![' '])));
        }
        assert(t.len() >= w.len());
        assert(t.subrange(0, w.len() as int) =~= w);
        assert forall|m: int| i <= m < i + w.len() implies !is_ws(#[trigger] s[m]) by {
            assert(s[m] == t[m - i]);
            assert(t[m - i] == w[m - i]);
        }
        let e = i + w.len();
        assert(!is_ws(s[i]));
        lemma_seek_class(s, CharClass::Whitespace, i + 1);
        let b = seek_class(s, CharClass::Whitespace, i + 1);
        if ws.len() == 1 {
            assert(e == s.len());
            if b < e {
                assert(in_class(s[b], CharClass::Whitespace));
            }
            assert(b == e);
            assert(s.subrange(i, b) =~= w);
            assert(words_from(s, b) =~= Seq::<Seq<char>>::empty());
            assert(words_from(s, i) =~= ws);
        } else {
            let rest = ws.drop_first();
            assert(t[w.len() as int] == ' ');
            assert(s[e] == ' ');
            if b < e {
                assert(in_class(s[b], CharClass::Whitespace));
            }
            if b > e {
                assert(!in_class(s[e], CharClass::Whitespace));
            }
            assert(b == e);
            assert(s.subrange(i, b) =~= w);
            assert(s.subrange(e + 1, s.len() as int) =~= join(rest, seq![' '])) by {
                assert(t.subrange(w.len() as int + 1, t.len() as int) =~= join(rest, seq![' ']));
            }
            assert forall|k: int| 0 <= k < rest.len() implies is_word(#[trigger] rest[k]) by {
                assert(rest[k] == ws[k + 1]);
            }
            lemma_words_of_join(s, e + 1, rest);
            assert(words_from(s, e) == words_from(s, e + 1));
            assert(words_from(s, i) =~= seq![w] + rest);
            assert(seq![w] + rest =~= ws);
        }
    }
}

/// Normalising whitespace twice changes nothing more.
pub proof fn lemma_normalize_space_idempotent(s: Seq<char>)
    ensures
        normalize_space_spec(normalize_space_spec(s)) == normalize_space_spec(s),
{
    let n = normalize_space_spec(s);
    lemma_words_are_words(s, 0);
    assert(n.subrange(0, n.len() as int) =~= n);
    lemma_words_of_join(n, 0, words(s));
}

/// Every character of words joined by spaces is a word character or a space.
pub proof fn lemma_join_chars(ws: Seq<Seq<char>>)
    requires
        forall|k: int| 0 <= k < ws.len() ==> is_word(#[trigger] ws[k]),
    ensures
        forall|j: int| 0 <= j < join(ws, seq![' ']).len() ==> #[trigger] join(ws, seq![' '])[j] == ' ' || !is_ws(join(ws, seq![' '])[j]),
    decreases ws.len(),
{
    if ws.len() == 1 {
        assert(is_word(ws[0]));
    } else if ws.len() >= 2 {
        let init = ws.drop_last();
        assert forall|k: int| 0 <= k < init.len() implies is_word(#[trigger] init[k]) by {
            assert(init[k] == ws[k]);
        }
        lemma_join_chars(init);
        let a = join(init, seq![' ']);
        let l = ws.last();
        assert(is_word(ws[ws.len() - 1]));
        let r = join(ws, seq![' ']);
        assert(r == a + seq![' '] + l);
        assert forall|j: int| 0 <= j < r.len() implies #[trigger] r[j] == ' ' || !is_ws(r[j]) by {
            if j < a.len() {
                assert(r[j] == a[j]);
            } else if j == a.len() {
                assert(r[j] == ' ');
            } else {
                assert(r[j] == l[j - a.len() - 1]);
            }
        }
    }
}

/// Normalised text has no line breaks.
pub proof fn lemma_normalized_single_line(s: Seq<char>)
    ensures
        !contains_char(normalize_space_spec(s), '\n'),
        !contains_char(normalize_space_spec(s), '\r'),
{
    lemma_words_are_words(s, 0);
    lemma_join_chars(words(s));
    let n = normalize_space_spec(s);
    if contains_char(n, '\n') {
        let j = choose|j: int| 0 <= j < n.len() && n[j] == '\n';
        assert(n[j] == ' ' || !is_ws(n[j]));
    }
    if contains_char(n, '\r') {
        let j = choose|j: int| 0 <= j < n.len() && n[j] == '\r';
        assert(n[j] == ' ' || !is_ws(n[j]));
    }
}

/// Normalising whitespace never makes text longer.
pub proof fn lemma_normalize_space_shorter(s: Seq<char>, i: int)
    requires
        0 <= i <= s.len(),
    ensures
        join(words_from(s, i), seq![' ']).len() <= s.len() - i,
    decreases s.len() - i,
{
    if i < s.len() {
        if is_ws(s[i]) {
            lemma_normalize_space_shorter(s, i + 1);
        } else {
            let b = seek_class(s, CharClass::Whitespace, i + 1);
            lemma_seek_class(s, CharClass::Whitespace, i + 1);
            let w = s.subrange(i, b);
            let rest = words_from(s, b);
            if rest.len() == 0 {
                assert(words_from(s, i) =~= seq![w]);
            } else {
                assert(b < s.len());
                assert(is_ws(s[b]));
                assert(words_from(s, b) == words_from(s, b + 1));
                lemma_normalize_space_shorter(s, b + 1);
                lemma_join_concat(seq![w], rest, seq![' ']);
                assert(seq![w] + rest =~= words_from(s, i));
            }
        }
    }
}

/// Text whose first character is not whitespace normalises to non-empty
/// text starting with that character.
pub proof fn lemma_normalize_space_first(s: Seq<char>)
    requires
        s.len() > 0,
        !is_ws(s[0]),
    ensures
        normalize_space_spec(s).len() > 0,
        normalize_space_spec(s)[0] == s[0],
{
    let ws = words(s);
    lemma_seek_class(s, CharClass::Whitespace, 1);
    let w = ws[0];
    assert(w[0] == s[0]);
    if ws.len() == 1 {
        assert(normalize_space_spec(s) == w);
    } else {
        lemma_join_first(ws, seq![' ']);
    }
}

} // verus!
