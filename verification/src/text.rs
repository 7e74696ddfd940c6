//! Character-level helpers shared by the modules that inspect file names,
//! URLs and digest files.

use vstd::prelude::*;

verus! {

/// `String::push` appends one character to the end of the string.
pub assume_specification[ String::push ](s: &mut String, c: char)
    ensures
        final(s)@ == old(s)@.push(c),
;

/// What `str::to_lowercase` makes of a text: its lower-case equivalent as
/// Unicode defines it, which may differ in length from the text.
pub uninterp spec fn lowercase_of(s: Seq<char>) -> Seq<char>;

/// What `str::to_uppercase` makes of a text: its upper-case equivalent as
/// Unicode defines it, which may differ in length from the text.
pub uninterp spec fn uppercase_of(s: Seq<char>) -> Seq<char>;

/// `str::to_lowercase` returns the lower-case equivalent of the text.
pub assume_specification[ str::to_lowercase ](s: &str) -> (result: String)
    ensures
        result@ == lowercase_of(s@),
;

/// `str::to_uppercase` returns the upper-case equivalent of the text.
pub assume_specification[ str::to_uppercase ](s: &str) -> (result: String)
    ensures
        result@ == uppercase_of(s@),
;

/// The characters of `s`, in order.
pub fn chars_of(s: &str) -> (v: Vec<char>)
    ensures
        v@ == s@,
{
    let mut v: Vec<char> = Vec::new();
    for c in it: s.chars()
        invariant
            v@ == it.seq().take(it.index() as int),
            it.seq() == s@,
    {
        v.push(c);
    }
    v
}

/// The string made of the characters `v[from..to]`.
pub fn string_of(v: &Vec<char>, from: usize, to: usize) -> (s: String)
    requires
        from <= to <= v.len(),
    ensures
        s@ == v@.subrange(from as int, to as int),
{
    let mut s = String::new();
    let mut i: usize = from;
    while i < to
        invariant
            from <= i <= to <= v.len(),
            s@ == v@.subrange(from as int, i as int),
        decreases to - i,
    {
        s.push(v[i]);
        i += 1;
    }
    s
}

/// Do the two strings hold the same characters?
pub fn same_text(a: &str, b: &str) -> (same: bool)
    ensures
        same == (a@ == b@),
{
    let x = chars_of(a);
    let y = chars_of(b);
    if x.len() != y.len() {
        return false;
    }
    let mut i: usize = 0;
    while i < x.len()
        invariant
            0 <= i <= x.len(),
            x.len() == y.len(),
            x@ == a@,
            y@ == b@,
            forall|j: int| 0 <= j < i ==> x[j] == y[j],
        decreases x.len() - i,
    {
        if x[i] != y[i] {
            return false;
        }
        i += 1;
    }
    assert(x@ =~= y@);
    true
}

/// `dir` and `name` joined into one path with a `/` between them.
pub open spec fn joined(dir: Seq<char>, name: Seq<char>) -> Seq<char> {
    dir.push('/') + name
}

/// The path of `name` inside the directory `dir`.
pub fn join_path(dir: &str, name: &str) -> (path: String)
    ensures
        path@ == joined(dir@, name@),
{
    let mut path = dir.to_owned();
    path.push('/');
    path.append(name);
    path
}

/// Is `c` white space as Unicode defines it?
pub open spec fn is_space(c: char) -> bool {
    let n = c as u32;
    (0x09 <= n <= 0x0D) || n == 0x20 || n == 0x85 || n == 0xA0 || n == 0x1680 || (0x2000 <= n
        <= 0x200A) || n == 0x2028 || n == 0x2029 || n == 0x202F || n == 0x205F || n == 0x3000
}

/// Is `c` a white-space character?
pub fn is_whitespace(c: char) -> (space: bool)
    ensures
        space == is_space(c),
{
    let n: u32 = c as u32;
    (0x09 <= n && n <= 0x0D) || n == 0x20 || n == 0x85 || n == 0xA0 || n == 0x1680 || (0x2000 <= n
        && n <= 0x200A) || n == 0x2028 || n == 0x2029 || n == 0x202F || n == 0x205F || n == 0x3000
}

/// Length of the run of white space at the start of `s`.
pub open spec fn leading_space(s: Seq<char>) -> nat
    decreases s.len(),
{
    if s.len() > 0 && is_space(s[0]) {
        1 + leading_space(s.drop_first())
    } else {
        0
    }
}

/// Length of the run of characters other than white space at the start of
/// `s`.
pub open spec fn leading_word(s: Seq<char>) -> nat
    decreases s.len(),
{
    if s.len() > 0 && !is_space(s[0]) {
        1 + leading_word(s.drop_first())
    } else {
        0
    }
}

/// The first word of `s`: what stands between the white space at its start
/// and the next white space.  Empty when `s` holds nothing but white space.
pub open spec fn first_word(s: Seq<char>) -> Seq<char> {
    let rest = s.skip(leading_space(s) as int);
    rest.take(leading_word(rest) as int)
}

/// The first word of `s` is `s[a..b]` when only white space stands before
/// `a`, none stands in `a..b`, `s` ends at `b` or has white space there, and
/// the word is not empty unless `s` ends.
pub proof fn lemma_first_word(s: Seq<char>, a: int, b: int)
    requires
        0 <= a <= b <= s.len(),
        forall|j: int| 0 <= j < a ==> is_space(s[j]),
        forall|j: int| a <= j < b ==> !is_space(s[j]),
        b == s.len() || is_space(s[b]),
        a < b || b == s.len(),
    ensures
        first_word(s) == s.subrange(a, b),
{
    lemma_space_run(s, a);
    let rest = s.skip(a);
    assert forall|j: int| 0 <= j < b - a implies !is_space(rest[j]) by {
        assert(rest[j] == s[a + j]);
    }
    lemma_word_run(rest, b - a);
    assert(rest.take(b - a) =~= s.subrange(a, b));
}

/// `leading_space(s)` is `a` when the first `a` characters are white space
/// and `s` ends there or goes on with another character.
pub proof fn lemma_space_run(s: Seq<char>, a: int)
    requires
        0 <= a <= s.len(),
        forall|j: int| 0 <= j < a ==> is_space(s[j]),
        a == s.len() || !is_space(s[a]),
    ensures
        leading_space(s) == a,
    decreases s.len(),
{
    if a > 0 {
        let rest = s.drop_first();
        assert forall|j: int| 0 <= j < a - 1 implies is_space(rest[j]) by {
            assert(rest[j] == s[j + 1]);
        }
        lemma_space_run(rest, a - 1);
    }
}

/// `leading_word(s)` is `b` when the first `b` characters are no white
/// space and `s` ends there or goes on with white space.
pub proof fn lemma_word_run(s: Seq<char>, b: int)
    requires
        0 <= b <= s.len(),
        forall|j: int| 0 <= j < b ==> !is_space(s[j]),
        b == s.len() || is_space(s[b]),
    ensures
        leading_word(s) == b,
    decreases s.len(),
{
    if b > 0 {
        let rest = s.drop_first();
        assert forall|j: int| 0 <= j < b - 1 implies !is_space(rest[j]) by {
            assert(rest[j] == s[j + 1]);
        }
        lemma_word_run(rest, b - 1);
    }
}

/// Length of the run of white space at the end of `s`.
pub open spec fn trailing_space(s: Seq<char>) -> nat
    decreases s.len(),
{
    if s.len() > 0 && is_space(s.last()) {
        1 + trailing_space(s.drop_last())
    } else {
        0
    }
}

/// `s` without the white space at its start and at its end.
pub open spec fn trimmed(s: Seq<char>) -> Seq<char> {
    if leading_space(s) == s.len() {
        Seq::empty()
    } else {
        s.subrange(leading_space(s) as int, s.len() - trailing_space(s))
    }
}

/// `trailing_space(s)` is `s.len() - b` when the characters from `b` on are
/// white space and `s` begins there or has another character before.
pub proof fn lemma_trailing_run(s: Seq<char>, b: int)
    requires
        0 <= b <= s.len(),
        forall|j: int| b <= j < s.len() ==> is_space(s[j]),
        b == 0 || !is_space(s[b - 1]),
    ensures
        trailing_space(s) == s.len() - b,
    decreases s.len(),
{
    if b < s.len() {
        let rest = s.drop_last();
        assert forall|j: int| b <= j < rest.len() implies is_space(rest[j]) by {
            assert(rest[j] == s[j]);
        }
        lemma_trailing_run(rest, b);
    }
}

/// `s` without the white space around it.
pub fn trim(s: &str) -> (result: &str)
    ensures
        result@ == trimmed(s@),
{
    let chars = chars_of(s);
    let mut start: usize = 0;
    while start < chars.len() && is_whitespace(chars[start])
        invariant
            0 <= start <= chars.len(),
            forall|j: int| 0 <= j < start ==> is_space(chars[j]),
        decreases chars.len() - start,
    {
        start += 1;
    }
    proof {
        lemma_space_run(chars@, start as int);
    }
    if start == chars.len() {
        proof {
            assert(chars@.subrange(start as int, start as int) =~= Seq::<char>::empty());
        }
        return s.substring_char(start, start);
    }
    let mut end: usize = chars.len();
    while end > start && is_whitespace(chars[end - 1])
        invariant
            start <= end <= chars.len(),
            start < chars.len(),
            !is_space(chars[start as int]),
            forall|j: int| end <= j < chars.len() ==> is_space(chars[j]),
        decreases end,
    {
        end -= 1;
    }
    proof {
        lemma_trailing_run(chars@, end as int);
    }
    s.substring_char(start, end)
}

/// ASCII capital letters in lower case, every other character as it is.
pub open spec fn lower_char(c: char) -> char {
    if 'A' <= c <= 'Z' {
        ((c as u8) + 32) as char
    } else {
        c
    }
}

/// `s` with its ASCII capital letters in lower case.
pub open spec fn lower(s: Seq<char>) -> Seq<char> {
    Seq::new(s.len(), |i: int| lower_char(s[i]))
}

/// The characters in lower case, as far as they are ASCII capital letters.
pub fn lowered(s: &Vec<char>) -> (l: Vec<char>)
    ensures
        l@ == lower(s@),
{
    let mut l: Vec<char> = Vec::new();
    let mut i: usize = 0;
    while i < s.len()
        invariant
            0 <= i <= s.len(),
            l@ == lower(s@.take(i as int)),
        decreases s.len() - i,
    {
        l.push(to_ascii_lower(s[i]));
        proof {
            assert(l@ =~= lower(s@.take(i + 1)));
        }
        i += 1;
    }
    proof {
        assert(s@.take(s.len() as int) =~= s@);
    }
    l
}

/// `c` in lower case if it is an ASCII capital letter.
pub fn to_ascii_lower(c: char) -> (l: char)
    ensures
        l == lower_char(c),
{
    if 'A' <= c && c <= 'Z' {
        ((c as u8) + 32) as char
    } else {
        c
    }
}

/// Is `c` one of `0`-`9`, `a`-`f`, `A`-`F`?
pub open spec fn is_hex_char(c: char) -> bool {
    ('0' <= c <= '9') || ('a' <= c <= 'f') || ('A' <= c <= 'F')
}

/// Is `c` a hexadecimal digit?
pub fn is_hex_digit(c: char) -> (hex: bool)
    ensures
        hex == is_hex_char(c),
{
    ('0' <= c && c <= '9') || ('a' <= c && c <= 'f') || ('A' <= c && c <= 'F')
}

/// The lower-case hexadecimal digit for a value below 16.
pub open spec fn hex_char(n: u8) -> char
    recommends
        n < 16,
{
    if n < 10 {
        (48 + n) as char
    } else {
        (87 + n) as char
    }
}

/// `bytes` written as lower-case hexadecimal, two digits per byte.
pub open spec fn hex_lower(bytes: Seq<u8>) -> Seq<char> {
    Seq::new(
        2 * bytes.len(),
        |i: int|
            if i % 2 == 0 {
                hex_char(bytes[i / 2] / 16)
            } else {
                hex_char(bytes[i / 2] % 16)
            },
    )
}

/// The lower-case hexadecimal digit of `n`.
pub fn hex_digit(n: u8) -> (c: char)
    requires
        n < 16,
    ensures
        c == hex_char(n),
{
    if n < 10 {
        (48 + n) as char
    } else {
        (87 + n) as char
    }
}

/// `bytes` as a lower-case hexadecimal string.
pub fn to_hex(bytes: &Vec<u8>) -> (hex: String)
    ensures
        hex@ == hex_lower(bytes@),
{
    let mut hex = String::new();
    let mut i: usize = 0;
    while i < bytes.len()
        invariant
            0 <= i <= bytes.len(),
            hex@ == hex_lower(bytes@.take(i as int)),
        decreases bytes.len() - i,
    {
        let b: u8 = bytes[i];
        hex.push(hex_digit(b / 16));
        hex.push(hex_digit(b % 16));
        proof {
            assert(hex@ =~= hex_lower(bytes@.take(i + 1)));
        }
        i += 1;
    }
    proof {
        assert(bytes@.take(bytes.len() as int) =~= bytes@);
    }
    hex
}

/// Position of the first `c` in `s`, or the length of `s` if it has none.
pub open spec fn first_index(s: Seq<char>, c: char) -> int
    decreases s.len(),
{
    if s.len() == 0 || s[0] == c {
        0
    } else {
        1 + first_index(s.drop_first(), c)
    }
}

/// Position just behind the last `c` in `s`, or 0 if it has none.
pub open spec fn tail_start(s: Seq<char>, c: char) -> int
    decreases s.len(),
{
    if s.len() == 0 {
        0
    } else if s.last() == c {
        s.len() as int
    } else {
        tail_start(s.drop_last(), c)
    }
}

/// The part of `s` before its first `c`; all of `s` if it has none.
pub open spec fn before_first(s: Seq<char>, c: char) -> Seq<char> {
    s.take(first_index(s, c))
}

/// The part of `s` behind its last `c`; all of `s` if it has none.
pub open spec fn after_last(s: Seq<char>, c: char) -> Seq<char> {
    s.skip(tail_start(s, c))
}

/// `first_index` is the one position before which no `c` stands and at
/// which `s` ends or holds a `c`.
pub proof fn lemma_first_index(s: Seq<char>, c: char, i: int)
    requires
        0 <= i <= s.len(),
        forall|j: int| 0 <= j < i ==> s[j] != c,
        i == s.len() || s[i] == c,
    ensures
        first_index(s, c) == i,
    decreases s.len(),
{
    if i > 0 {
        let rest = s.drop_first();
        assert forall|j: int| 0 <= j < i - 1 implies rest[j] != c by {
            assert(rest[j] == s[j + 1]);
        }
        lemma_first_index(rest, c, i - 1);
    }
}

/// `tail_start` is the one position from which on no `c` stands and which
/// is 0 or lies just behind a `c`.
pub proof fn lemma_tail_start(s: Seq<char>, c: char, k: int)
    requires
        0 <= k <= s.len(),
        forall|j: int| k <= j < s.len() ==> s[j] != c,
        k == 0 || s[k - 1] == c,
    ensures
        tail_start(s, c) == k,
    decreases s.len(),
{
    if k < s.len() {
        let rest = s.drop_last();
        assert forall|j: int| k <= j < rest.len() implies rest[j] != c by {
            assert(rest[j] == s[j]);
        }
        lemma_tail_start(rest, c, k);
    }
}

/// The extension of the file that `path` names: what follows the last dot
/// of its last segment.  A name without a dot has none, and neither has a
/// name whose only dot is its first character.
pub open spec fn extension_of(path: Seq<char>) -> Option<Seq<char>> {
    let name = after_last(path, '/');
    let start = tail_start(name, '.');
    if start <= 1 {
        None
    } else {
        Some(name.skip(start))
    }
}

/// Where the extension of the file that `path` names begins, if the file
/// has one.
pub fn extension_start(path: &Vec<char>) -> (start: Option<usize>)
    ensures
        match start {
            Some(k) => k <= path.len() && extension_of(path@) == Some(path@.skip(k as int)),
            None => extension_of(path@) is None,
        },
{
    let end: usize = path.len();
    let mut name_start: usize = end;
    while name_start > 0 && path[name_start - 1] != '/'
        invariant
            0 <= name_start <= end,
            end == path.len(),
            forall|j: int| name_start <= j < end ==> path[j] != '/',
        decreases name_start,
    {
        name_start -= 1;
    }
    let ghost name = path@.skip(name_start as int);
    let mut start: usize = end;
    while start > name_start && path[start - 1] != '.'
        invariant
            name_start <= start <= end,
            end == path.len(),
            forall|j: int| start <= j < end ==> path[j] != '.',
        decreases start,
    {
        start -= 1;
    }
    proof {
        lemma_tail_start(path@, '/', name_start as int);
        assert forall|j: int| start - name_start <= j < name.len() implies name[j] != '.' by {
            assert(name[j] == path[name_start + j]);
        }
        if start > name_start {
            assert(name[start - name_start - 1] == path[start - 1]);
        }
        lemma_tail_start(name, '.', start - name_start);
        assert(name.skip(start - name_start) =~= path@.skip(start as int));
    }
    if start - name_start <= 1 {
        None
    } else {
        Some(start)
    }
}

/// Does `s` end with `suffix`?
pub open spec fn ends_with(s: Seq<char>, suffix: Seq<char>) -> bool {
    suffix.len() <= s.len() && s.skip(s.len() - suffix.len()) == suffix
}

/// Does `s` begin with `prefix`?
pub open spec fn starts_with(s: Seq<char>, prefix: Seq<char>) -> bool {
    prefix.len() <= s.len() && s.take(prefix.len() as int) == prefix
}

/// `s` without `suffix` at its end, taken off once; `s` itself if it does
/// not end with it.
pub open spec fn without_suffix(s: Seq<char>, suffix: Seq<char>) -> Seq<char> {
    if ends_with(s, suffix) {
        s.take(s.len() - suffix.len())
    } else {
        s
    }
}

/// `s` without `suffix` at its end, as often as it stands there.
pub open spec fn trim_end(s: Seq<char>, suffix: Seq<char>) -> Seq<char>
    decreases s.len(),
{
    if suffix.len() > 0 && ends_with(s, suffix) {
        trim_end(s.take(s.len() - suffix.len()), suffix)
    } else {
        s
    }
}

/// Do the first `end` characters of `s` end with `suffix`?
pub fn has_suffix(s: &Vec<char>, end: usize, suffix: &Vec<char>) -> (found: bool)
    requires
        end <= s.len(),
    ensures
        found == ends_with(s@.take(end as int), suffix@),
{
    if suffix.len() > end {
        return false;
    }
    let start: usize = end - suffix.len();
    let mut i: usize = 0;
    while i < suffix.len()
        invariant
            0 <= i <= suffix.len(),
            start + suffix.len() == end,
            end <= s.len(),
            forall|j: int| 0 <= j < i ==> s[start + j] == suffix[j],
        decreases suffix.len() - i,
    {
        if s[start + i] != suffix[i] {
            proof {
                let tail = s@.take(end as int).skip(end - suffix.len());
                assert(tail[i as int] == s[start + i]);
            }
            return false;
        }
        i += 1;
    }
    proof {
        assert(s@.take(end as int).skip(end - suffix.len()) =~= suffix@);
    }
    true
}

/// Do the characters of `s` begin with `prefix`?
pub fn has_prefix(s: &Vec<char>, prefix: &Vec<char>) -> (found: bool)
    ensures
        found == starts_with(s@, prefix@),
{
    if prefix.len() > s.len() {
        return false;
    }
    let mut i: usize = 0;
    while i < prefix.len()
        invariant
            0 <= i <= prefix.len(),
            prefix.len() <= s.len(),
            forall|j: int| 0 <= j < i ==> s[j] == prefix[j],
        decreases prefix.len() - i,
    {
        if s[i] != prefix[i] {
            proof {
                assert(s@.take(prefix.len() as int)[i as int] == s[i as int]);
            }
            return false;
        }
        i += 1;
    }
    proof {
        assert(s@.take(prefix.len() as int) =~= prefix@);
    }
    true
}

/// Does `pattern` stand in `s` at position `at`?
pub fn matches_at(s: &Vec<char>, at: usize, pattern: &Vec<char>) -> (found: bool)
    requires
        at <= s.len(),
    ensures
        found == starts_with(s@.skip(at as int), pattern@),
{
    if pattern.len() > s.len() - at {
        return false;
    }
    let mut i: usize = 0;
    while i < pattern.len()
        invariant
            0 <= i <= pattern.len(),
            at + pattern.len() <= s.len(),
            forall|j: int| 0 <= j < i ==> s[at + j] == pattern[j],
        decreases pattern.len() - i,
    {
        if s[at + i] != pattern[i] {
            proof {
                assert(s@.skip(at as int).take(pattern.len() as int)[i as int] == s[at + i]);
            }
            return false;
        }
        i += 1;
    }
    proof {
        assert(s@.skip(at as int).take(pattern.len() as int) =~= pattern@);
    }
    true
}

/// `s` with every occurrence of `from` replaced by `to`, found from left to
/// right without overlap.
pub open spec fn replaced(s: Seq<char>, from: Seq<char>, to: Seq<char>) -> Seq<char>
    decreases s.len(),
{
    if s.len() == 0 {
        Seq::empty()
    } else if from.len() > 0 && starts_with(s, from) {
        to + replaced(s.skip(from.len() as int), from, to)
    } else {
        seq![s[0]] + replaced(s.drop_first(), from, to)
    }
}

/// `s` with every occurrence of `from` replaced by `to`.
pub fn replace_all(s: &str, from: &str, to: &str) -> (result: String)
    ensures
        result@ == replaced(s@, from@, to@),
{
    let chars = chars_of(s);
    let pattern = chars_of(from);
    let mut result = String::new();
    let mut i: usize = 0;
    proof {
        assert(chars@.skip(0) =~= chars@);
        assert(result@ + replaced(chars@, from@, to@) =~= replaced(chars@, from@, to@));
    }
    while i < chars.len()
        invariant
            0 <= i <= chars.len(),
            chars@ == s@,
            pattern@ == from@,
            replaced(s@, from@, to@) == result@ + replaced(chars@.skip(i as int), from@, to@),
        decreases chars.len() - i,
    {
        let ghost rest = chars@.skip(i as int);
        let ghost done = result@;
        if pattern.len() > 0 && matches_at(&chars, i, &pattern) {
            result.append(to);
            proof {
                assert(rest.skip(pattern.len() as int) =~= chars@.skip(i + pattern.len()));
                assert(done + (to@ + replaced(rest.skip(pattern.len() as int), from@, to@))
                    =~= result@ + replaced(chars@.skip(i + pattern.len()), from@, to@));
            }
            i = i + pattern.len();
        } else {
            result.push(chars[i]);
            proof {
                assert(rest.drop_first() =~= chars@.skip(i + 1));
                assert(done + (seq![rest[0]] + replaced(rest.drop_first(), from@, to@))
                    =~= result@ + replaced(chars@.skip(i + 1), from@, to@));
            }
            i += 1;
        }
    }
    proof {
        assert(result@ + Seq::<char>::empty() =~= result@);
    }
    result
}

/// Does `pattern` stand somewhere in `s`?
pub open spec fn contains_text(s: Seq<char>, pattern: Seq<char>) -> bool {
    exists|i: int| 0 <= i <= s.len() && starts_with(#[trigger] s.skip(i), pattern)
}

/// Does `s` hold `pattern` somewhere?
pub fn has_text(s: &Vec<char>, pattern: &Vec<char>) -> (found: bool)
    ensures
        found == contains_text(s@, pattern@),
{
    let mut i: usize = 0;
    while i <= s.len()
        invariant
            0 <= i <= s.len() + 1,
            forall|j: int| 0 <= j < i ==> !starts_with(#[trigger] s@.skip(j), pattern@),
        decreases s.len() + 1 - i,
    {
        if matches_at(s, i, pattern) {
            return true;
        }
        if i == s.len() {
            return false;
        }
        i += 1;
    }
    false
}

/// How two texts stand to each other in the order of the dictionary, with
/// characters in the order of their code points.
#[derive(Debug, Clone, Copy, PartialEq, Eq, Structural)]
pub enum TextOrder {
    Before,
    Same,
    After,
}

/// How `a` stands to `b`: the first character in which they differ
/// decides, and a text that is the beginning of another comes before it.
pub open spec fn text_order(a: Seq<char>, b: Seq<char>) -> TextOrder
    decreases a.len(),
{
    if a.len() == 0 && b.len() == 0 {
        TextOrder::Same
    } else if a.len() == 0 {
        TextOrder::Before
    } else if b.len() == 0 {
        TextOrder::After
    } else if a[0] < b[0] {
        TextOrder::Before
    } else if a[0] > b[0] {
        TextOrder::After
    } else {
        text_order(a.drop_first(), b.drop_first())
    }
}

/// If `a` stands before `b`, then `b` stands after `a`, and the other way
/// round.
pub proof fn lemma_text_order_mirror(a: Seq<char>, b: Seq<char>)
    ensures
        (text_order(a, b) == TextOrder::Before) == (text_order(b, a) == TextOrder::After),
        (text_order(a, b) == TextOrder::After) == (text_order(b, a) == TextOrder::Before),
        (text_order(a, b) == TextOrder::Same) == (text_order(b, a) == TextOrder::Same),
    decreases a.len(),
{
    if a.len() > 0 && b.len() > 0 {
        lemma_text_order_mirror(a.drop_first(), b.drop_first());
    }
}

/// What stands before a text stands before everything that the text does
/// not stand after.
pub proof fn lemma_text_order_transitive(a: Seq<char>, b: Seq<char>, c: Seq<char>)
    requires
        text_order(a, b) != TextOrder::After,
        text_order(b, c) != TextOrder::After,
    ensures
        text_order(a, c) != TextOrder::After,
        text_order(a, b) == TextOrder::Before || text_order(b, c) == TextOrder::Before
            ==> text_order(a, c) == TextOrder::Before,
    decreases a.len(),
{
    if a.len() > 0 && b.len() > 0 && c.len() > 0 {
        if a[0] == b[0] && b[0] == c[0] {
            lemma_text_order_transitive(a.drop_first(), b.drop_first(), c.drop_first());
        }
    } else if a.len() > 0 && b.len() > 0 {
        assert(text_order(b, c) == TextOrder::After);
    }
}

/// How `a` stands to `b` in the order of the dictionary.
pub fn compare_text(a: &str, b: &str) -> (order: TextOrder)
    ensures
        order == text_order(a@, b@),
{
    let x = chars_of(a);
    let y = chars_of(b);
    let mut i: usize = 0;
    proof {
        assert(x@.skip(0) =~= x@);
        assert(y@.skip(0) =~= y@);
    }
    while i < x.len() && i < y.len()
        invariant
            0 <= i <= x.len(),
            i <= y.len(),
            x@ == a@,
            y@ == b@,
            text_order(a@, b@) == text_order(x@.skip(i as int), y@.skip(i as int)),
        decreases x.len() - i,
    {
        let p: char = x[i];
        let q: char = y[i];
        proof {
            assert(x@.skip(i as int).drop_first() =~= x@.skip(i + 1));
            assert(y@.skip(i as int).drop_first() =~= y@.skip(i + 1));
        }
        if p < q {
            return TextOrder::Before;
        }
        if p > q {
            return TextOrder::After;
        }
        i += 1;
    }
    if i < y.len() {
        TextOrder::Before
    } else if i < x.len() {
        TextOrder::After
    } else {
        TextOrder::Same
    }
}

/// Length of what is left of the first `end` characters of `s` once
/// `suffix` is taken from their end as often as it stands there.
pub fn trimmed_len(s: &Vec<char>, end: usize, suffix: &Vec<char>) -> (len: usize)
    requires
        end <= s.len(),
    ensures
        len <= end,
        s@.take(len as int) == trim_end(s@.take(end as int), suffix@),
{
    let mut len: usize = end;
    if suffix.len() == 0 {
        return len;
    }
    while has_suffix(s, len, suffix)
        invariant
            len <= end,
            end <= s.len(),
            suffix.len() > 0,
            trim_end(s@.take(len as int), suffix@) == trim_end(s@.take(end as int), suffix@),
        decreases len,
    {
        proof {
            assert(s@.take(len as int).take(len - suffix.len()) =~= s@.take(len - suffix.len()));
        }
        len = len - suffix.len();
    }
    len
}

/// `line` without the carriage return at its end, if it has one.
pub open spec fn without_cr(line: Seq<char>) -> Seq<char> {
    if line.len() > 0 && line.last() == '\r' {
        line.drop_last()
    } else {
        line
    }
}

/// The lines of `s`.  A line ends with a line feed, or with a carriage
/// return and a line feed; the last line need not end at all, and after the
/// last line ending no empty line follows.
pub open spec fn lines_of(s: Seq<char>) -> Seq<Seq<char>>
    decreases s.len(),
{
    if s.len() == 0 {
        Seq::empty()
    } else {
        let end = first_index(s, '\n');
        if end < 0 || end >= s.len() {
            seq![s]
        } else {
            seq![without_cr(s.take(end))] + lines_of(s.skip(end + 1))
        }
    }
}

/// The lines of `s`, each as a string of its own.
pub fn split_lines(s: &str) -> (lines: Vec<String>)
    ensures
        lines@.len() == lines_of(s@).len(),
        forall|i: int| 0 <= i < lines@.len() ==> (#[trigger] lines@[i])@ == lines_of(s@)[i],
{
    let chars = chars_of(s);
    let mut lines: Vec<String> = Vec::new();
    let mut start: usize = 0;
    let ghost mut done: Seq<Seq<char>> = Seq::empty();
    proof {
        assert(chars@.skip(0) =~= chars@);
        assert(done + lines_of(chars@) =~= lines_of(chars@));
    }
    while start < chars.len()
        invariant
            0 <= start <= chars.len(),
            chars@ == s@,
            done.len() == lines@.len(),
            forall|i: int| 0 <= i < lines@.len() ==> (#[trigger] lines@[i])@ == done[i],
            lines_of(s@) == done + lines_of(chars@.skip(start as int)),
        decreases chars.len() - start,
    {
        let ghost rest = chars@.skip(start as int);
        let mut end: usize = start;
        while end < chars.len() && chars[end] != '\n'
            invariant
                start <= end <= chars.len(),
                forall|j: int| start <= j < end ==> chars[j] != '\n',
            decreases chars.len() - end,
        {
            end += 1;
        }
        proof {
            assert forall|j: int| 0 <= j < end - start implies rest[j] != '\n' by {
                assert(rest[j] == chars[start + j]);
            }
            lemma_first_index(rest, '\n', end - start);
            if end < chars.len() {
                assert(rest[end - start] == chars[end as int]);
            }
            assert(rest.take(end - start) =~= chars@.subrange(start as int, end as int));
        }
        if end == chars.len() {
            let line = string_of(&chars, start, end);
            proof {
                assert(chars@.subrange(start as int, end as int) =~= rest);
                assert(chars@.skip(end as int) =~= Seq::<char>::empty());
                assert(done.push(rest) + lines_of(chars@.skip(end as int)) =~= done + seq![rest]);
                done = done.push(rest);
            }
            lines.push(line);
            start = end;
        } else {
            let line_end: usize = if end > start && chars[end - 1] == '\r' {
                end - 1
            } else {
                end
            };
            let line = string_of(&chars, start, line_end);
            proof {
                let whole = chars@.subrange(start as int, end as int);
                assert(line@ =~= without_cr(whole));
                assert(rest.skip(end - start + 1) =~= chars@.skip(end + 1));
                assert(done.push(line@) + lines_of(chars@.skip(end + 1)) =~= done + (seq![
                    without_cr(whole),
                ] + lines_of(rest.skip(end - start + 1))));
                done = done.push(line@);
            }
            lines.push(line);
            start = end + 1;
        }
    }
    proof {
        assert(chars@.skip(start as int) =~= Seq::<char>::empty());
        assert(done + Seq::<Seq<char>>::empty() =~= done);
    }
    lines
}

/// The character of a decimal digit.
pub open spec fn digit_char(d: nat) -> char
    recommends
        d < 10,
{
    ((48 + d) as u8) as char
}

/// `n` written in decimal, without leading zeros.
pub open spec fn decimal(n: nat) -> Seq<char>
    decreases n,
{
    if n < 10 {
        seq![digit_char(n)]
    } else {
        decimal(n / 10).push(digit_char(n % 10))
    }
}

/// The characters of `digits`, the last digit first.
pub open spec fn reversed_digits(digits: Seq<u8>) -> Seq<char> {
    Seq::new(digits.len(), |i: int| digit_char(digits[digits.len() - 1 - i] as nat))
}

/// `n` as a decimal number.
pub fn to_decimal(n: u64) -> (text: String)
    ensures
        text@ == decimal(n as nat),
{
    let mut m: u64 = n;
    let mut digits: Vec<u8> = Vec::new();
    proof {
        assert(decimal(n as nat) + reversed_digits(digits@) =~= decimal(n as nat));
    }
    while m >= 10
        invariant
            decimal(n as nat) == decimal(m as nat) + reversed_digits(digits@),
            forall|i: int| 0 <= i < digits.len() ==> digits[i] < 10,
        decreases m,
    {
        let d: u8 = (m % 10) as u8;
        let ghost before = digits@;
        digits.push(d);
        proof {
            assert(reversed_digits(digits@) =~= seq![digit_char(d as nat)] + reversed_digits(
                before,
            ));
            assert(decimal(m as nat) =~= decimal((m / 10) as nat).push(digit_char(d as nat)));
            assert(decimal(m as nat) + reversed_digits(before) =~= decimal((m / 10) as nat)
                + reversed_digits(digits@));
        }
        m = m / 10;
    }
    let mut text = String::new();
    text.push((48 + m as u8) as char);
    let mut left: usize = digits.len();
    proof {
        assert(text@ =~= decimal(m as nat) + reversed_digits(digits@).take(0));
    }
    while left > 0
        invariant
            left <= digits.len(),
            forall|i: int| 0 <= i < digits.len() ==> digits[i] < 10,
            text@ == decimal(m as nat) + reversed_digits(digits@).take(digits.len() - left),
        decreases left,
    {
        left -= 1;
        text.push((48 + digits[left]) as char);
        proof {
            assert(text@ =~= decimal(m as nat) + reversed_digits(digits@).take(
                digits.len() - left,
            ));
        }
    }
    proof {
        assert(reversed_digits(digits@).take(digits.len() as int) =~= reversed_digits(digits@));
    }
    text
}

/// `head`, the number `n`, `middle` and `tail` in a row.
pub open spec fn with_number(head: Seq<char>, n: nat, middle: Seq<char>, tail: Seq<char>) -> Seq<
    char,
> {
    head + decimal(n) + middle + tail
}

/// A message made of a text, a number, another text and a closing text.
pub fn numbered_message(head: &str, n: u64, middle: &str, tail: &str) -> (message: String)
    ensures
        message@ == with_number(head@, n as nat, middle@, tail@),
{
    let mut message = head.to_owned();
    let number = to_decimal(n);
    message.append(number.as_str());
    message.append(middle);
    message.append(tail);
    message
}

/// Is `c` one of the digits `0` to `9`?
pub open spec fn is_digit_char(c: char) -> bool {
    '0' <= c <= '9'
}

/// The number that a run of decimal digits stands for.
pub open spec fn digits_value(s: Seq<char>) -> nat
    decreases s.len(),
{
    if s.len() == 0 {
        0
    } else {
        digits_value(s.drop_last()) * 10 + ((s.last() as u32 - 48) as nat)
    }
}

/// Is `s` made of decimal digits only?
pub open spec fn all_digits(s: Seq<char>) -> bool {
    forall|i: int| 0 <= i < s.len() ==> is_digit_char(s[i])
}

/// The number that `s` stands for as an unsigned 32-bit integer: decimal
/// digits, at least one, with a `+` in front if one likes, and a value that
/// fits.
pub open spec fn parsed_u32(s: Seq<char>) -> Option<u32> {
    let digits = if s.len() > 0 && s[0] == '+' {
        s.drop_first()
    } else {
        s
    };
    if digits.len() > 0 && all_digits(digits) && digits_value(digits) <= u32::MAX {
        Some(digits_value(digits) as u32)
    } else {
        None
    }
}

/// A run of digits is worth at least as much as any of its beginnings.
pub proof fn lemma_digits_value_grows(s: Seq<char>, k: int)
    requires
        0 <= k <= s.len(),
        all_digits(s),
    ensures
        digits_value(s.take(k)) <= digits_value(s),
    decreases s.len(),
{
    if k < s.len() {
        assert(s.drop_last().take(k) =~= s.take(k));
        assert(all_digits(s.drop_last()));
        lemma_digits_value_grows(s.drop_last(), k);
    } else {
        assert(s.take(k) =~= s);
    }
}

/// The number that `s` stands for as an unsigned 64-bit integer: decimal
/// digits, at least one, with a `+` in front if one likes, and a value that
/// fits.
pub open spec fn parsed_u64(s: Seq<char>) -> Option<u64> {
    let digits = if s.len() > 0 && s[0] == '+' {
        s.drop_first()
    } else {
        s
    };
    if digits.len() > 0 && all_digits(digits) && digits_value(digits) <= u64::MAX {
        Some(digits_value(digits) as u64)
    } else {
        None
    }
}

/// Reads the characters `s[from..]` as an unsigned 64-bit integer.
#[verifier::loop_isolation(false)]
pub fn parse_u64(s: &Vec<char>, from: usize) -> (value: Option<u64>)
    requires
        from <= s.len(),
    ensures
        value == parsed_u64(s@.skip(from as int)),
{
    let ghost text = s@.skip(from as int);
    let mut i: usize = from;
    if i < s.len() && s[i] == '+' {
        i += 1;
    }
    let start: usize = i;
    let ghost digits = s@.skip(start as int);
    proof {
        if start > from {
            assert(text.drop_first() =~= digits);
        }
    }
    if start == s.len() {
        return None;
    }
    let mut value: u64 = 0;
    proof {
        assert(digits.take(0) =~= Seq::<char>::empty());
    }
    while i < s.len()
        invariant
            start <= i <= s.len(),
            digits == s@.skip(start as int),
            all_digits(digits.take(i - start)),
            value == digits_value(digits.take(i - start)),
        decreases s.len() - i,
    {
        let c: char = s[i];
        if !('0' <= c && c <= '9') {
            proof {
                assert(digits[i - start] == c);
                assert(!is_digit_char(digits[i - start]));
            }
            return None;
        }
        let d: u64 = (c as u32 - 48) as u64;
        proof {
            let longer = digits.take(i + 1 - start);
            assert(longer.drop_last() =~= digits.take(i - start));
            assert(longer.last() == c);
            assert forall|j: int| 0 <= j < longer.len() implies is_digit_char(longer[j]) by {
                if j < i - start {
                    assert(digits.take(i - start)[j] == longer[j]);
                }
            }
            if all_digits(digits) {
                lemma_digits_value_grows(digits, i + 1 - start);
            }
        }
        let next = match value.checked_mul(10) {
            Some(tenfold) => match tenfold.checked_add(d) {
                Some(next) => next,
                None => {
                    return None;
                },
            },
            None => {
                return None;
            },
        };
        value = next;
        i += 1;
    }
    proof {
        assert(digits.take(digits.len() as int) =~= digits);
    }
    Some(value)
}

/// Reads the characters `s[from..]` as an unsigned 32-bit integer.
#[verifier::loop_isolation(false)]
pub fn parse_u32(s: &Vec<char>, from: usize) -> (value: Option<u32>)
    requires
        from <= s.len(),
    ensures
        value == parsed_u32(s@.skip(from as int)),
{
    let ghost text = s@.skip(from as int);
    let mut i: usize = from;
    if i < s.len() && s[i] == '+' {
        i += 1;
    }
    let start: usize = i;
    let ghost digits = s@.skip(start as int);
    proof {
        if start > from {
            assert(text.drop_first() =~= digits);
        }
    }
    if start == s.len() {
        return None;
    }
    let mut value: u64 = 0;
    proof {
        assert(digits.take(0) =~= Seq::<char>::empty());
    }
    while i < s.len()
        invariant
            start <= i <= s.len(),
            digits == s@.skip(start as int),
            all_digits(digits.take(i - start)),
            value == digits_value(digits.take(i - start)),
            value <= u32::MAX,
        decreases s.len() - i,
    {
        let c: char = s[i];
        if !('0' <= c && c <= '9') {
            proof {
                assert(digits[i - start] == c);
                assert(!is_digit_char(digits[i - start]));
            }
            return None;
        }
        let d: u64 = (c as u32 - 48) as u64;
        let next: u64 = value * 10 + d;
        proof {
            let longer = digits.take(i + 1 - start);
            assert(longer.drop_last() =~= digits.take(i - start));
            assert(longer.last() == c);
            assert forall|j: int| 0 <= j < longer.len() implies is_digit_char(longer[j]) by {
                if j < i - start {
                    assert(digits.take(i - start)[j] == longer[j]);
                }
            }
        }
        if next > u32::MAX as u64 {
            proof {
                if all_digits(digits) {
                    lemma_digits_value_grows(digits, i + 1 - start);
                }
            }
            return None;
        }
        value = next;
        i += 1;
    }
    proof {
        assert(digits.take(digits.len() as int) =~= digits);
    }
    Some(value as u32)
}

} // verus!
