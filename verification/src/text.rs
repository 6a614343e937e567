//! Character-level text operations: the string primitives that the link and
//! frontmatter logic is built from, each with a specification over `Seq<char>`.
use vstd::prelude::*;

verus! {

// ---------------------------------------------------------------------------
// Conversions between `str`/`String` and character vectors
// ---------------------------------------------------------------------------

/// The characters of `s`, in order.
pub fn chars_of(s: &str) -> (v: Vec<char>)
    ensures
        v@ == s@,
{
    let mut v: Vec<char> = Vec::new();
    for c in it: s.chars()
        invariant
            v@ == it.seq().take(it.index() as int),
            it.seq() == s@,
    {
        v.push(c);
    }
    v
}

/// `String::push`: appends one character to the end of the string.
#[verifier::external_body]
fn push_char(s: &mut String, c: char)
    ensures
        final(s)@ == old(s)@.push(c),
{
    s.push(c);
}

/// The string made of the characters of `v`.
pub fn string_of(v: &Vec<char>) -> (s: String)
    ensures
        s@ == v@,
{
    let mut s = String::new();
    let mut i: usize = 0;
    while i < v.len()
        invariant
            i <= v.len(),
            s@ == v@.take(i as int),
        decreases v.len() - i,
    {
        push_char(&mut s, v[i]);
        i += 1;
        assert(s@ =~= v@.take(i as int));
    }
    assert(v@.take(v.len() as int) =~= v@);
    s
}

/// A copy of `s[i..j]`.
pub fn slice_of(s: &Vec<char>, i: usize, j: usize) -> (r: Vec<char>)
    requires
        i <= j <= s.len(),
    ensures
        r@ == s@.subrange(i as int, j as int),
{
    let mut r: Vec<char> = Vec::new();
    let mut k: usize = i;
    while k < j
        invariant
            i <= k <= j <= s.len(),
            r@ == s@.subrange(i as int, k as int),
        decreases j - k,
    {
        r.push(s[k]);
        k += 1;
        assert(r@ =~= s@.subrange(i as int, k as int));
    }
    r
}

/// Concatenation of two character vectors.
pub fn concat(a: &Vec<char>, b: &Vec<char>) -> (r: Vec<char>)
    ensures
        r@ == a@ + b@,
{
    let mut r = slice_of(a, 0, a.len());
    let mut k: usize = 0;
    while k < b.len()
        invariant
            k <= b.len(),
            r@ == a@ + b@.take(k as int),
        decreases b.len() - k,
    {
        r.push(b[k]);
        k += 1;
        assert(r@ =~= a@ + b@.take(k as int));
    }
    assert(b@.take(b.len() as int) =~= b@);
    r
}

/// Whether two character vectors are equal.
pub fn same_chars(a: &Vec<char>, b: &Vec<char>) -> (r: bool)
    ensures
        r == (a@ == b@),
{
    if a.len() != b.len() {
        return false;
    }
    let mut k: usize = 0;
    while k < a.len()
        invariant
            k <= a.len() == b.len(),
            a@.take(k as int) == b@.take(k as int),
        decreases a.len() - k,
    {
        if a[k] != b[k] {
            assert(a@[k as int] != b@[k as int]);
            return false;
        }
        k += 1;
        assert(a@.take(k as int) =~= a@.take(k as int - 1).push(a@[k - 1]));
        assert(b@.take(k as int) =~= b@.take(k as int - 1).push(b@[k - 1]));
    }
    assert(a@ =~= a@.take(a.len() as int));
    assert(b@ =~= b@.take(b.len() as int));
    true
}

// ---------------------------------------------------------------------------
// Character classes
// ---------------------------------------------------------------------------

/// `char::is_whitespace`: the Unicode `White_Space` property.
pub open spec fn is_white_space(c: char) -> bool {
    let u = c as u32;
    ||| 0x09 <= u <= 0x0D
    ||| u == 0x20
    ||| u == 0x85
    ||| u == 0xA0
    ||| u == 0x1680
    ||| 0x2000 <= u <= 0x200A
    ||| u == 0x2028
    ||| u == 0x2029
    ||| u == 0x202F
    ||| u == 0x205F
    ||| u == 0x3000
}

pub fn white_space(c: char) -> (r: bool)
    ensures
        r == is_white_space(c),
{
    let u = c as u32;
    (0x09 <= u && u <= 0x0D) || u == 0x20 || u == 0x85 || u == 0xA0 || u == 0x1680 || (0x2000
        <= u && u <= 0x200A) || u == 0x2028 || u == 0x2029 || u == 0x202F || u == 0x205F || u
        == 0x3000
}

pub open spec fn is_ascii_upper(c: char) -> bool {
    'A' <= c <= 'Z'
}

pub open spec fn is_ascii_lower(c: char) -> bool {
    'a' <= c <= 'z'
}

pub open spec fn is_ascii_digit(c: char) -> bool {
    '0' <= c <= '9'
}

/// `char::is_ascii_alphabetic`.
pub open spec fn is_ascii_alpha(c: char) -> bool {
    is_ascii_upper(c) || is_ascii_lower(c)
}

/// `char::is_ascii_alphanumeric`.
pub open spec fn is_ascii_alnum(c: char) -> bool {
    is_ascii_alpha(c) || is_ascii_digit(c)
}

pub fn ascii_alpha(c: char) -> (r: bool)
    ensures
        r == is_ascii_alpha(c),
{
    ('A' <= c && c <= 'Z') || ('a' <= c && c <= 'z')
}

pub fn ascii_alnum(c: char) -> (r: bool)
    ensures
        r == is_ascii_alnum(c),
{
    ascii_alpha(c) || ('0' <= c && c <= '9')
}

/// `char::to_ascii_lowercase`.
pub open spec fn ascii_lower(c: char) -> char {
    if is_ascii_upper(c) {
        ((c as u32) + 32) as char
    } else {
        c
    }
}

/// `str::to_ascii_lowercase`.
pub open spec fn lowercase(s: Seq<char>) -> Seq<char> {
    Seq::new(s.len(), |i: int| ascii_lower(s[i]))
}


pub fn ascii_lower_char(c: char) -> (r: char)
    ensures
        r == ascii_lower(c),
{
    if 'A' <= c && c <= 'Z' {
        let b: u8 = (c as u8) + 32;
        b as char
    } else {
        c
    }
}

// ---------------------------------------------------------------------------
// Trimming
// ---------------------------------------------------------------------------

/// The characters that a trim removes: `White_Space`, or one given character.
#[derive(Clone, Copy)]
pub enum CharClass {
    WhiteSpace,
    Exactly(char),
}

pub open spec fn in_class(k: CharClass, c: char) -> bool {
    match k {
        CharClass::WhiteSpace => is_white_space(c),
        CharClass::Exactly(x) => c == x,
    }
}

pub fn class_has(k: CharClass, c: char) -> (r: bool)
    ensures
        r == in_class(k, c),
{
    match k {
        CharClass::WhiteSpace => white_space(c),
        CharClass::Exactly(x) => c == x,
    }
}

/// `s` with every leading character of class `k` removed.
pub open spec fn trim_start_in(s: Seq<char>, k: CharClass) -> Seq<char>
    decreases s.len(),
{
    if s.len() > 0 && in_class(k, s[0]) {
        trim_start_in(s.drop_first(), k)
    } else {
        s
    }
}

/// `s` with every trailing character of class `k` removed.
pub open spec fn trim_end_in(s: Seq<char>, k: CharClass) -> Seq<char>
    decreases s.len(),
{
    if s.len() > 0 && in_class(k, s.last()) {
        trim_end_in(s.drop_last(), k)
    } else {
        s
    }
}

/// `str::trim_matches` for the class `k`.
pub open spec fn trim_in(s: Seq<char>, k: CharClass) -> Seq<char> {
    trim_end_in(trim_start_in(s, k), k)
}

/// `str::trim`.
pub open spec fn trim(s: Seq<char>) -> Seq<char> {
    trim_in(s, CharClass::WhiteSpace)
}

pub fn trim_start_of(s: &Vec<char>, k: CharClass) -> (r: Vec<char>)
    ensures
        r@ == trim_start_in(s@, k),
{
    let n = s.len();
    let mut lo: usize = 0;
    assert(s@.subrange(0, n as int) =~= s@);
    while lo < n && class_has(k, s[lo])
        invariant
            lo <= n == s.len(),
            trim_start_in(s@, k) == trim_start_in(s@.subrange(lo as int, n as int), k),
        decreases n - lo,
    {
        assert(s@.subrange(lo as int, n as int).drop_first() =~= s@.subrange(lo + 1, n as int));
        lo += 1;
    }
    slice_of(s, lo, n)
}

pub fn trim_end_of(s: &Vec<char>, k: CharClass) -> (r: Vec<char>)
    ensures
        r@ == trim_end_in(s@, k),
{
    let mut hi: usize = s.len();
    assert(s@.subrange(0, hi as int) =~= s@);
    while hi > 0 && class_has(k, s[hi - 1])
        invariant
            hi <= s.len(),
            trim_end_in(s@, k) == trim_end_in(s@.subrange(0, hi as int), k),
        decreases hi,
    {
        assert(s@.subrange(0, hi as int).drop_last() =~= s@.subrange(0, hi - 1));
        hi -= 1;
    }
    slice_of(s, 0, hi)
}

pub fn trim_of(s: &Vec<char>, k: CharClass) -> (r: Vec<char>)
    ensures
        r@ == trim_in(s@, k),
{
    let t = trim_start_of(s, k);
    trim_end_of(&t, k)
}

pub fn trim_ws(s: &Vec<char>) -> (r: Vec<char>)
    ensures
        r@ == trim(s@),
{
    trim_of(s, CharClass::WhiteSpace)
}

// ---------------------------------------------------------------------------
// Searching
// ---------------------------------------------------------------------------

/// First index at or after `i` that holds `c`.
pub open spec fn find_char_from(s: Seq<char>, c: char, i: int) -> Option<int>
    decreases s.len() - i,
{
    if i < 0 || i >= s.len() {
        None
    } else if s[i] == c {
        Some(i)
    } else {
        find_char_from(s, c, i + 1)
    }
}

/// `str::find` with a `char` pattern (as a character index).
pub open spec fn find_char(s: Seq<char>, c: char) -> Option<int> {
    find_char_from(s, c, 0)
}

pub proof fn lemma_find_char_from(s: Seq<char>, c: char, i: int)
    requires
        0 <= i,
    ensures
        find_char_from(s, c, i) matches Some(j) ==> i <= j < s.len() && s[j] == c && forall|
            m: int,
        |
            i <= m < j ==> s[m] != c,
        find_char_from(s, c, i) is None ==> forall|m: int| i <= m < s.len() ==> s[m] != c,
    decreases s.len() - i,
{
    if i < s.len() && s[i] != c {
        lemma_find_char_from(s, c, i + 1);
    }
}

pub proof fn lemma_find_char(s: Seq<char>, c: char)
    ensures
        find_char(s, c) matches Some(j) ==> 0 <= j < s.len() && s[j] == c && forall|m: int|
            0 <= m < j ==> s[m] != c,
        find_char(s, c) is None ==> forall|m: int| 0 <= m < s.len() ==> s[m] != c,
{
    lemma_find_char_from(s, c, 0);
}

pub fn find_char_exec(s: &Vec<char>, c: char) -> (r: Option<usize>)
    ensures
        r matches Some(i) ==> find_char(s@, c) == Some(i as int),
        r is None ==> find_char(s@, c) is None,
{
    let mut i: usize = 0;
    while i < s.len()
        invariant
            i <= s.len(),
            find_char(s@, c) == find_char_from(s@, c, i as int),
        decreases s.len() - i,
    {
        if s[i] == c {
            return Some(i);
        }
        i += 1;
    }
    None
}

/// Last index before `i` that holds `c`.
pub open spec fn rfind_char_before(s: Seq<char>, c: char, i: int) -> Option<int>
    decreases i,
{
    if i <= 0 || i > s.len() {
        None
    } else if s[i - 1] == c {
        Some(i - 1)
    } else {
        rfind_char_before(s, c, i - 1)
    }
}

/// `str::rfind` with a `char` pattern (as a character index).
pub open spec fn rfind_char(s: Seq<char>, c: char) -> Option<int> {
    rfind_char_before(s, c, s.len() as int)
}

pub proof fn lemma_rfind_char_before(s: Seq<char>, c: char, i: int)
    requires
        i <= s.len(),
    ensures
        rfind_char_before(s, c, i) matches Some(j) ==> 0 <= j < i && s[j] == c && forall|m: int|
            j < m < i ==> s[m] != c,
        rfind_char_before(s, c, i) is None ==> forall|m: int| 0 <= m < i ==> s[m] != c,
    decreases i,
{
    if i > 0 && s[i - 1] != c {
        lemma_rfind_char_before(s, c, i - 1);
    }
}

pub proof fn lemma_rfind_char(s: Seq<char>, c: char)
    ensures
        rfind_char(s, c) matches Some(j) ==> 0 <= j < s.len() && s[j] == c && forall|m: int|
            j < m < s.len() ==> s[m] != c,
        rfind_char(s, c) is None ==> forall|m: int| 0 <= m < s.len() ==> s[m] != c,
{
    lemma_rfind_char_before(s, c, s.len() as int);
}

pub fn rfind_char_exec(s: &Vec<char>, c: char) -> (r: Option<usize>)
    ensures
        r matches Some(i) ==> rfind_char(s@, c) == Some(i as int),
        r is None ==> rfind_char(s@, c) is None,
{
    let mut i: usize = s.len();
    while i > 0
        invariant
            i <= s.len(),
            rfind_char(s@, c) == rfind_char_before(s@, c, i as int),
        decreases i,
    {
        if s[i - 1] == c {
            return Some(i - 1);
        }
        i -= 1;
    }
    None
}

/// Whether `p` occurs in `s` at index `i`.
pub open spec fn occurs_at(s: Seq<char>, p: Seq<char>, i: int) -> bool {
    0 <= i && i + p.len() <= s.len() && s.subrange(i, i + p.len()) == p
}

/// First index at or after `i` where `p` occurs.
pub open spec fn find_from(s: Seq<char>, p: Seq<char>, i: int) -> Option<int>
    decreases s.len() - i,
{
    if i < 0 || i + p.len() > s.len() {
        None
    } else if occurs_at(s, p, i) {
        Some(i)
    } else if i >= s.len() {
        None
    } else {
        find_from(s, p, i + 1)
    }
}

/// `str::find` with a string pattern (as a character index).
pub open spec fn find(s: Seq<char>, p: Seq<char>) -> Option<int> {
    find_from(s, p, 0)
}

/// `str::contains` with a string pattern.
pub open spec fn contains(s: Seq<char>, p: Seq<char>) -> bool {
    find(s, p) is Some
}

pub proof fn lemma_find_from(s: Seq<char>, p: Seq<char>, i: int)
    requires
        0 <= i,
    ensures
        find_from(s, p, i) matches Some(j) ==> i <= j && occurs_at(s, p, j) && forall|m: int|
            i <= m < j ==> !occurs_at(s, p, m),
        find_from(s, p, i) is None ==> forall|m: int| i <= m ==> !occurs_at(s, p, m),
    decreases s.len() - i,
{
    if i < s.len() && i + p.len() <= s.len() && !occurs_at(s, p, i) {
        lemma_find_from(s, p, i + 1);
    } else if i + p.len() <= s.len() && !occurs_at(s, p, i) {
        assert(s.subrange(i, i + p.len()) =~= p);
    }
}

pub proof fn lemma_find(s: Seq<char>, p: Seq<char>)
    ensures
        find(s, p) matches Some(j) ==> 0 <= j && j + p.len() <= s.len() && occurs_at(s, p, j)
            && forall|m: int| 0 <= m < j ==> !occurs_at(s, p, m),
        find(s, p) is None ==> forall|m: int| 0 <= m ==> !occurs_at(s, p, m),
{
    lemma_find_from(s, p, 0);
}

pub fn occurs_at_exec(s: &Vec<char>, p: &Vec<char>, i: usize) -> (r: bool)
    ensures
        r == occurs_at(s@, p@, i as int),
{
    if i > s.len() || p.len() > s.len() - i {
        return false;
    }
    let mut k: usize = 0;
    while k < p.len()
        invariant
            k <= p.len(),
            i + p.len() <= s.len(),
            forall|m: int| 0 <= m < k ==> s@[i + m] == p@[m],
        decreases p.len() - k,
    {
        if s[i + k] != p[k] {
            assert(s@.subrange(i as int, i + p.len())[k as int] != p@[k as int]);
            return false;
        }
        k += 1;
    }
    assert(s@.subrange(i as int, i + p.len()) =~= p@);
    true
}

pub fn find_exec(s: &Vec<char>, p: &Vec<char>) -> (r: Option<usize>)
    ensures
        r matches Some(i) ==> find(s@, p@) == Some(i as int),
        r is None ==> find(s@, p@) is None,
{
    if p.len() == 0 {
        assert(s@.subrange(0, 0) =~= p@);
        return Some(0);
    }
    let mut i: usize = 0;
    while i <= s.len() && p.len() <= s.len() - i
        invariant
            i <= s.len(),
            p.len() > 0,
            find(s@, p@) == find_from(s@, p@, i as int),
        decreases s.len() - i,
    {
        if occurs_at_exec(s, p, i) {
            return Some(i);
        }
        i += 1;
    }
    None
}

pub fn contains_exec(s: &Vec<char>, p: &Vec<char>) -> (r: bool)
    ensures
        r == contains(s@, p@),
{
    find_exec(s, p).is_some()
}

/// `str::starts_with`.
pub open spec fn starts_with(s: Seq<char>, p: Seq<char>) -> bool {
    p.len() <= s.len() && s.take(p.len() as int) == p
}

/// `str::ends_with`.
pub open spec fn ends_with(s: Seq<char>, p: Seq<char>) -> bool {
    p.len() <= s.len() && s.skip(s.len() - p.len()) == p
}

pub fn starts_with_exec(s: &Vec<char>, p: &Vec<char>) -> (r: bool)
    ensures
        r == starts_with(s@, p@),
{
    let r = occurs_at_exec(s, p, 0);
    assert(s@.subrange(0, p@.len() as int) =~= s@.take(p@.len() as int));
    r
}

pub fn ends_with_exec(s: &Vec<char>, p: &Vec<char>) -> (r: bool)
    ensures
        r == ends_with(s@, p@),
{
    if p.len() > s.len() {
        return false;
    }
    let r = occurs_at_exec(s, p, s.len() - p.len());
    assert(s@.subrange(s.len() - p.len(), s.len() as int) =~= s@.skip(s.len() - p.len()));
    r
}

/// Whether the ASCII-lowercased `s` starts with `p`.
pub fn lower_starts_with(s: &Vec<char>, p: &Vec<char>) -> (r: bool)
    ensures
        r == starts_with(lowercase(s@), p@),
{
    if p.len() > s.len() {
        return false;
    }
    let mut k: usize = 0;
    while k < p.len()
        invariant
            k <= p.len() <= s.len(),
            forall|m: int| 0 <= m < k ==> ascii_lower(s@[m]) == p@[m],
        decreases p.len() - k,
    {
        if ascii_lower_char(s[k]) != p[k] {
            assert(lowercase(s@).take(p.len() as int)[k as int] != p@[k as int]);
            return false;
        }
        k += 1;
    }
    assert(lowercase(s@).take(p.len() as int) =~= p@);
    true
}


// ---------------------------------------------------------------------------
// Splitting and joining
// ---------------------------------------------------------------------------

/// The character views of a vector of character vectors.
pub open spec fn views(v: Seq<Vec<char>>) -> Seq<Seq<char>> {
    v.map_values(|x: Vec<char>| x@)
}

/// `str::split` with a `char` pattern.
pub open spec fn split_on(s: Seq<char>, c: char) -> Seq<Seq<char>>
    decreases s.len(),
{
    if s.len() == 0 {
        seq![Seq::empty()]
    } else {
        let prev = split_on(s.drop_last(), c);
        if s.last() == c {
            prev.push(Seq::empty())
        } else {
            prev.update(prev.len() - 1, prev.last().push(s.last()))
        }
    }
}

pub proof fn lemma_split_on_nonempty(s: Seq<char>, c: char)
    ensures
        split_on(s, c).len() >= 1,
    decreases s.len(),
{
    if s.len() > 0 {
        lemma_split_on_nonempty(s.drop_last(), c);
    }
}

pub fn split_exec(s: &Vec<char>, c: char) -> (r: Vec<Vec<char>>)
    ensures
        views(r@) == split_on(s@, c),
{
    let mut done: Vec<Vec<char>> = Vec::new();
    let mut cur: Vec<char> = Vec::new();
    let mut i: usize = 0;
    assert(s@.take(0) =~= Seq::<char>::empty());
    assert(views(done@).push(cur@) =~= split_on(s@.take(0), c));
    while i < s.len()
        invariant
            i <= s.len(),
            views(done@).push(cur@) == split_on(s@.take(i as int), c),
        decreases s.len() - i,
    {
        let ghost prev = s@.take(i as int);
        assert(s@.take(i + 1).drop_last() =~= prev);
        proof {
            lemma_split_on_nonempty(prev, c);
        }
        if s[i] == c {
            let old_cur = cur;
            done.push(old_cur);
            cur = Vec::new();
            assert(views(done@).push(cur@) =~= split_on(s@.take(i + 1), c));
        } else {
            cur.push(s[i]);
            assert(views(done@).push(cur@) =~= split_on(s@.take(i + 1), c));
        }
        i += 1;
    }
    assert(s@.take(s.len() as int) =~= s@);
    done.push(cur);
    assert(views(done@) =~= split_on(s@, c));
    done
}

/// A line's trailing carriage return, removed.
pub open spec fn strip_cr(p: Seq<char>) -> Seq<char> {
    if p.len() > 0 && p.last() == '\r' {
        p.drop_last()
    } else {
        p
    }
}

/// `str::lines`: the pieces between `\n` characters, each stripped of a `\r`
/// that precedes its `\n`; a final empty piece (after a trailing `\n`) is
/// not a line.
pub open spec fn lines(s: Seq<char>) -> Seq<Seq<char>> {
    let parts = split_on(s, '\n');
    let ended = parts.drop_last().map_values(|p: Seq<char>| strip_cr(p));
    if parts.last().len() > 0 {
        ended.push(parts.last())
    } else {
        ended
    }
}

pub fn lines_exec(s: &Vec<char>) -> (r: Vec<Vec<char>>)
    ensures
        views(r@) == lines(s@),
{
    let parts = split_exec(s, '\n');
    proof {
        lemma_split_on_nonempty(s@, '\n');
    }
    let ghost parts_v = split_on(s@, '\n');
    let ghost ended = parts_v.drop_last().map_values(|p: Seq<char>| strip_cr(p));
    let n = parts.len() - 1;
    let mut out: Vec<Vec<char>> = Vec::new();
    let mut i: usize = 0;
    while i < n
        invariant
            n + 1 == parts.len(),
            views(parts@) == parts_v,
            ended == parts_v.drop_last().map_values(|p: Seq<char>| strip_cr(p)),
            i <= n,
            views(out@) == ended.take(i as int),
        decreases n - i,
    {
        let p = &parts[i];
        assert(p@ == parts_v[i as int]);
        let line = if p.len() > 0 && p[p.len() - 1] == '\r' {
            slice_of(p, 0, p.len() - 1)
        } else {
            slice_of(p, 0, p.len())
        };
        assert(line@ =~= strip_cr(p@));
        assert(ended[i as int] == strip_cr(parts_v[i as int]));
        let ghost before = out@;
        out.push(line);
        assert(views(out@) =~= views(before).push(ended[i as int]));
        i += 1;
        assert(views(out@) =~= ended.take(i as int));
    }
    assert(ended.take(n as int) =~= ended);
    let last = &parts[n];
    assert(last@ == parts_v.last());
    if last.len() > 0 {
        let ghost before = out@;
        let copy = slice_of(last, 0, last.len());
        assert(copy@ =~= parts_v.last());
        out.push(copy);
        assert(views(out@) =~= views(before).push(parts_v.last()));
        assert(views(out@) =~= ended.push(parts_v.last()));
    }
    out
}

/// `[T]::join` of character sequences with a `char` separator.
pub open spec fn join_on(parts: Seq<Seq<char>>, c: char) -> Seq<char>
    decreases parts.len(),
{
    if parts.len() == 0 {
        Seq::empty()
    } else if parts.len() == 1 {
        parts[0]
    } else {
        join_on(parts.drop_last(), c).push(c) + parts.last()
    }
}

pub fn join_exec(parts: &Vec<Vec<char>>, c: char) -> (r: Vec<char>)
    ensures
        r@ == join_on(views(parts@), c),
{
    let mut out: Vec<char> = Vec::new();
    let mut i: usize = 0;
    while i < parts.len()
        invariant
            i <= parts.len(),
            out@ == join_on(views(parts@).take(i as int), c),
        decreases parts.len() - i,
    {
        assert(views(parts@).take(i + 1).drop_last() =~= views(parts@).take(i as int));
        assert(views(parts@).take(i + 1).last() == parts@[i as int]@);
        if i > 0 {
            out.push(c);
        }
        out = concat(&out, &parts[i]);
        i += 1;
        proof {
            if i == 1 {
                assert(views(parts@).take(1) =~= seq![parts@[0]@]);
            }
        }
    }
    assert(views(parts@).take(parts.len() as int) =~= views(parts@));
    out
}

// ---------------------------------------------------------------------------
// UTF-8 lengths and byte offsets
// ---------------------------------------------------------------------------

/// `char::len_utf8`.
pub open spec fn utf8_width(c: char) -> nat {
    let u = c as u32;
    if u <= 0x7F {
        1
    } else if u <= 0x7FF {
        2
    } else if u <= 0xFFFF {
        3
    } else {
        4
    }
}

pub fn utf8_width_exec(c: char) -> (w: usize)
    ensures
        w == utf8_width(c),
{
    let u = c as u32;
    if u <= 0x7F {
        1
    } else if u <= 0x7FF {
        2
    } else if u <= 0xFFFF {
        3
    } else {
        4
    }
}

/// The number of bytes in the UTF-8 encoding of `s`.
pub open spec fn utf8_len(s: Seq<char>) -> nat
    decreases s.len(),
{
    if s.len() == 0 {
        0
    } else {
        utf8_len(s.drop_last()) + utf8_width(s.last())
    }
}

/// The first character index at or after `k` whose UTF-8 byte offset in `s`
/// is at least `off`, or `s.len()` when there is none.
pub open spec fn char_index_from(s: Seq<char>, off: int, k: int) -> int
    decreases s.len() - k,
{
    if k < 0 || k >= s.len() {
        s.len() as int
    } else if utf8_len(s.take(k)) >= off {
        k
    } else {
        char_index_from(s, off, k + 1)
    }
}

/// The character index in `s` that the byte offset `off` denotes: exact at a
/// character boundary, otherwise the next boundary, and never past the end.
pub open spec fn char_index_at(s: Seq<char>, off: int) -> int {
    char_index_from(s, off, 0)
}

pub proof fn lemma_char_index_from_bounds(s: Seq<char>, off: int, k: int)
    requires
        0 <= k,
    ensures
        k <= char_index_from(s, off, k) <= s.len() || (k > s.len() && char_index_from(s, off, k)
            == s.len()),
    decreases s.len() - k,
{
    if k < s.len() && utf8_len(s.take(k)) < off {
        lemma_char_index_from_bounds(s, off, k + 1);
    }
}

pub proof fn lemma_char_index_at_bounds(s: Seq<char>, off: int)
    ensures
        0 <= char_index_at(s, off) <= s.len(),
{
    lemma_char_index_from_bounds(s, off, 0);
}

/// The character index of the byte offset `off` into the text `s`.
pub fn char_index_of(s: &Vec<char>, off: usize) -> (k: usize)
    ensures
        k == char_index_at(s@, off as int),
        k <= s.len(),
{
    proof {
        lemma_char_index_at_bounds(s@, off as int);
    }
    if off == 0 {
        if s.len() > 0 {
            assert(utf8_len(s@.take(0)) == 0) by {
                assert(s@.take(0) =~= Seq::<char>::empty());
            }
        }
        return 0;
    }
    // `rem` is the distance from the byte offset of character `k` up to `off`.
    let mut k: usize = 0;
    let mut rem: usize = off;
    assert(s@.take(0) =~= Seq::<char>::empty());
    while k < s.len()
        invariant
            k <= s.len(),
            0 < rem <= off,
            utf8_len(s@.take(k as int)) + rem == off,
            char_index_at(s@, off as int) == char_index_from(s@, off as int, k as int),
        decreases s.len() - k,
    {
        let w = utf8_width_exec(s[k]);
        assert(s@.take(k + 1).drop_last() =~= s@.take(k as int));
        assert(utf8_len(s@.take(k + 1)) == utf8_len(s@.take(k as int)) + w);
        assert(char_index_from(s@, off as int, k as int) == char_index_from(
            s@,
            off as int,
            k + 1,
        ));
        if w >= rem {
            k += 1;
            if k < s.len() {
                assert(utf8_len(s@.take(k as int)) >= off);
                assert(char_index_from(s@, off as int, k as int) == k);
            } else {
                assert(char_index_from(s@, off as int, k as int) == s.len());
            }
            return k;
        }
        rem -= w;
        k += 1;
    }
    k
}

} // verus!
