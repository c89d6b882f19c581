//! Character-level text primitives shared by extraction, metrics and scoring.
//!
//! Every operation works on character vectors and is specified over `Seq<char>`.
use vstd::prelude::*;

verus! {

/// Character classes used when trimming or splitting submitted text.
#[derive(Clone, Copy, PartialEq, Eq, Debug)]
pub enum CharClass {
    /// Unicode whitespace, as recognised by `char::is_whitespace`.
    Whitespace,
    /// The Markdown heading marker `#`.
    Hash,
    /// Markdown bullet markers `-`, `*` and `+`.
    ListMarker,
    /// Characters that cannot belong to an identifier (not ASCII alphanumeric, `-` or `_`).
    NonIdentifier,
    /// The angle bracket `<`.
    OpenAngle,
    /// The angle bracket `>`.
    CloseAngle,
    /// The line feed character.
    Newline,
    /// Any character that is not ASCII alphanumeric and not `-`.
    NonToken,
    /// The characters `#` and `?` that end a link's path.
    LinkSuffix,
    /// The hyphen `-`.
    Dash,
    /// The colon `:`.
    Colon,
    /// The closing parenthesis `)`.
    CloseParen,
    /// The backslash.
    Backslash,
    /// The slash `/`.
    Slash,
}

/// Unicode `White_Space` code points, the set that `char::is_whitespace` recognises.
pub open spec fn is_ws(c: char) -> bool {
    let u = c as u32;
    ||| 0x09 <= u <= 0x0D
    ||| u == 0x20
    ||| u == 0x85
    ||| u == 0xA0
    ||| u == 0x1680
    ||| 0x2000 <= u <= 0x200A
    ||| u == 0x2028
    ||| u == 0x2029
    ||| u == 0x202F
    ||| u == 0x205F
    ||| u == 0x3000
}

/// ASCII decimal digit.
pub open spec fn is_digit(c: char) -> bool {
    48 <= (c as u32) <= 57
}

/// ASCII letter or digit.
pub open spec fn is_alnum(c: char) -> bool {
    let u = c as u32;
    ||| 48 <= u <= 57
    ||| 65 <= u <= 90
    ||| 97 <= u <= 122
}

/// Membership of one character in a class.
pub open spec fn in_class(c: char, k: CharClass) -> bool {
    match k {
        CharClass::Whitespace => is_ws(c),
        CharClass::Hash => c == '#',
        CharClass::ListMarker => c == '-' || c == '*' || c == '+',
        CharClass::NonIdentifier => !is_alnum(c) && c != '-' && c != '_',
        CharClass::OpenAngle => c == '<',
        CharClass::CloseAngle => c == '>',
        CharClass::Newline => c == '\n',
        CharClass::NonToken => !is_alnum(c) && c != '-',
        CharClass::LinkSuffix => c == '#' || c == '?',
        CharClass::Dash => c == '-',
        CharClass::Colon => c == ':',
        CharClass::CloseParen => c == ')',
        CharClass::Backslash => c == '\\',
        CharClass::Slash => c == '/',
    }
}

/// Decides Unicode whitespace for one character.
pub fn is_whitespace(c: char) -> (r: bool)
    ensures
        r == is_ws(c),
{
    let u = c as u32;
    (0x09 <= u && u <= 0x0D) || u == 0x20 || u == 0x85 || u == 0xA0 || u == 0x1680 || (0x2000
        <= u && u <= 0x200A) || u == 0x2028 || u == 0x2029 || u == 0x202F || u == 0x205F || u
        == 0x3000
}

/// Decides ASCII letters and digits.
pub fn is_ascii_alnum(c: char) -> (r: bool)
    ensures
        r == is_alnum(c),
{
    let u = c as u32;
    (48 <= u && u <= 57) || (65 <= u && u <= 90) || (97 <= u && u <= 122)
}

/// Decides ASCII decimal digits.
pub fn is_ascii_digit(c: char) -> (r: bool)
    ensures
        r == is_digit(c),
{
    let u = c as u32;
    48 <= u && u <= 57
}

/// Decides membership of one character in a class.
pub fn char_in_class(c: char, k: CharClass) -> (r: bool)
    ensures
        r == in_class(c, k),
{
    match k {
        CharClass::Whitespace => is_whitespace(c),
        CharClass::Hash => c == '#',
        CharClass::ListMarker => c == '-' || c == '*' || c == '+',
        CharClass::NonIdentifier => !is_ascii_alnum(c) && c != '-' && c != '_',
        CharClass::OpenAngle => c == '<',
        CharClass::CloseAngle => c == '>',
        CharClass::Newline => c == '\n',
        CharClass::NonToken => !is_ascii_alnum(c) && c != '-',
        CharClass::LinkSuffix => c == '#' || c == '?',
        CharClass::Dash => c == '-',
        CharClass::Colon => c == ':',
        CharClass::CloseParen => c == ')',
        CharClass::Backslash => c == '\\',
        CharClass::Slash => c == '/',
    }
}

/// ASCII lower-casing of one character; other characters are unchanged.
pub open spec fn lower_char(c: char) -> char {
    if 65 <= (c as u32) <= 90 {
        ((c as u32) + 32) as char
    } else {
        c
    }
}

/// ASCII upper-casing of one character; other characters are unchanged.
pub open spec fn upper_char(c: char) -> char {
    if 97 <= (c as u32) <= 122 {
        ((c as u32) - 32) as char
    } else {
        c
    }
}

/// ASCII lower-casing of a whole text.
pub open spec fn lower(s: Seq<char>) -> Seq<char> {
    s.map_values(|c: char| lower_char(c))
}

/// ASCII upper-casing of a whole text.
pub open spec fn upper(s: Seq<char>) -> Seq<char> {
    s.map_values(|c: char| upper_char(c))
}

/// Lower-cases one ASCII letter.
pub fn to_lower_char(c: char) -> (r: char)
    ensures
        r == lower_char(c),
{
    let u = c as u32;
    if 65 <= u && u <= 90 {
        let b = (u + 32) as u8;
        b as char
    } else {
        c
    }
}

/// Upper-cases one ASCII letter.
pub fn to_upper_char(c: char) -> (r: char)
    ensures
        r == upper_char(c),
{
    let u = c as u32;
    if 97 <= u && u <= 122 {
        let b = (u - 32) as u8;
        b as char
    } else {
        c
    }
}

/// ASCII lower-casing of a character slice.
pub fn to_lower(s: &[char]) -> (r: Vec<char>)
    ensures
        r@ == lower(s@),
{
    let mut r: Vec<char> = Vec::new();
    let mut i: usize = 0;
    while i < s.len()
        invariant
            i <= s.len(),
            r@ == lower(s@.take(i as int)),
        decreases s.len() - i,
    {
        r.push(to_lower_char(s[i]));
        i = i + 1;
        assert(r@ =~= lower(s@.take(i as int)));
    }
    assert(s@.take(s.len() as int) =~= s@);
    r
}

/// ASCII upper-casing of a character slice.
pub fn to_upper(s: &[char]) -> (r: Vec<char>)
    ensures
        r@ == upper(s@),
{
    let mut r: Vec<char> = Vec::new();
    let mut i: usize = 0;
    while i < s.len()
        invariant
            i <= s.len(),
            r@ == upper(s@.take(i as int)),
        decreases s.len() - i,
    {
        r.push(to_upper_char(s[i]));
        i = i + 1;
        assert(r@ =~= upper(s@.take(i as int)));
    }
    assert(s@.take(s.len() as int) =~= s@);
    r
}

/// Appends one character to a string through `String::push`; trusted to append exactly that
/// character to the string's characters, as the standard library documents.
#[verifier::external_body]
fn push_char(s: &mut String, c: char)
    ensures
        final(s)@ == old(s)@.push(c),
{
    s.push(c);
}

/// Copies the characters of a string slice into a vector.
pub fn chars_of(s: &str) -> (v: Vec<char>)
    ensures
        v@ == s@,
{
    let mut v: Vec<char> = Vec::new();
    for c in it: s.chars()
        invariant
            v@ == it.seq().take(it.index() as int),
    {
        v.push(c);
    }
    v
}

/// Builds a string from a slice of characters.
pub fn string_of(cs: &[char]) -> (s: String)
    ensures
        s@ == cs@,
{
    let mut s = String::new();
    let mut i: usize = 0;
    while i < cs.len()
        invariant
            i <= cs.len(),
            s@ == cs@.take(i as int),
        decreases cs.len() - i,
    {
        push_char(&mut s, cs[i]);
        i = i + 1;
        assert(s@ =~= cs@.take(i as int));
    }
    assert(cs@.take(cs.len() as int) =~= cs@);
    s
}

/// Copies the characters `s[lo..hi]` into a new vector.
pub fn sub_vec(s: &[char], lo: usize, hi: usize) -> (r: Vec<char>)
    requires
        lo <= hi <= s.len(),
    ensures
        r@ == s@.subrange(lo as int, hi as int),
{
    let mut r: Vec<char> = Vec::new();
    let mut i: usize = lo;
    while i < hi
        invariant
            lo <= i <= hi <= s.len(),
            r@ == s@.subrange(lo as int, i as int),
        decreases hi - i,
    {
        r.push(s[i]);
        i = i + 1;
        assert(r@ =~= s@.subrange(lo as int, i as int));
    }
    r
}

/// Concatenates two character slices.
pub fn concat(a: &[char], b: &[char]) -> (r: Vec<char>)
    ensures
        r@ == a@ + b@,
{
    let mut r = sub_vec(a, 0, a.len());
    let mut i: usize = 0;
    assert(a@.subrange(0, a@.len() as int) =~= a@);
    while i < b.len()
        invariant
            i <= b.len(),
            r@ == a@ + b@.take(i as int),
        decreases b.len() - i,
    {
        r.push(b[i]);
        i = i + 1;
        assert(r@ =~= a@ + b@.take(i as int));
    }
    assert(b@.take(b.len() as int) =~= b@);
    r
}

/// Equality of two character slices.
pub fn chars_eq(a: &[char], b: &[char]) -> (r: bool)
    ensures
        r == (a@ == b@),
{
    if a.len() != b.len() {
        return false;
    }
    let mut i: usize = 0;
    while i < a.len()
        invariant
            i <= a.len() == b.len(),
            forall|j: int| 0 <= j < i ==> a@[j] == b@[j],
        decreases a.len() - i,
    {
        if a[i] != b[i] {
            return false;
        }
        i = i + 1;
    }
    assert(a@ =~= b@);
    true
}

/// `p` occurs in `s` starting at index `i`.
pub open spec fn occurs_at(s: Seq<char>, p: Seq<char>, i: int) -> bool {
    0 <= i && i + p.len() <= s.len() && s.subrange(i, i + p.len()) == p
}

/// `p` occurs somewhere in `s`.
pub open spec fn has_sub(s: Seq<char>, p: Seq<char>) -> bool {
    exists|i: int| occurs_at(s, p, i)
}

/// `s` begins with `p`.
pub open spec fn begins_with(s: Seq<char>, p: Seq<char>) -> bool {
    occurs_at(s, p, 0)
}

/// Decides whether `p` occurs in `s` at index `i`.
pub fn matches_at(s: &[char], p: &[char], i: usize) -> (r: bool)
    ensures
        r == occurs_at(s@, p@, i as int),
{
    if i > s.len() || p.len() > s.len() - i {
        return false;
    }
    let mut j: usize = 0;
    while j < p.len()
        invariant
            j <= p.len(),
            i + p.len() <= s.len(),
            forall|k: int| 0 <= k < j ==> s@[i + k] == p@[k],
        decreases p.len() - j,
    {
        if s[i + j] != p[j] {
            assert(s@.subrange(i as int, i + p.len())[j as int] != p@[j as int]);
            return false;
        }
        j = j + 1;
    }
    assert(s@.subrange(i as int, i + p.len()) =~= p@);
    true
}

/// `i` is the first index at which `p` occurs in `s`.
pub open spec fn first_at(s: Seq<char>, p: Seq<char>, i: int) -> bool {
    occurs_at(s, p, i) && forall|j: int| 0 <= j < i ==> !occurs_at(s, p, j)
}

/// Index of the first occurrence of `p` in `s`, or -1 when it does not occur.
pub open spec fn first_sub(s: Seq<char>, p: Seq<char>) -> int {
    if exists|i: int| first_at(s, p, i) {
        choose|i: int| first_at(s, p, i)
    } else {
        -1
    }
}

/// A first occurrence is the value of `first_sub`.
pub proof fn lemma_first_sub(s: Seq<char>, p: Seq<char>, i: int)
    requires
        first_at(s, p, i),
    ensures
        first_sub(s, p) == i,
        has_sub(s, p),
{
    let c = choose|c: int| first_at(s, p, c);
    if c < i {
        assert(!occurs_at(s, p, c));
    }
    if i < c {
        assert(!occurs_at(s, p, i));
    }
}

/// Index of the first occurrence of `p` in `s`, if any.
pub fn find_sub(s: &[char], p: &[char]) -> (r: Option<usize>)
    ensures
        r is Some ==> first_at(s@, p@, r->0 as int) && first_sub(s@, p@) == r->0,
        r is None ==> !has_sub(s@, p@) && first_sub(s@, p@) == -1,
{
    if p.len() > s.len() {
        assert forall|j: int| occurs_at(s@, p@, j) implies false by {}
        return None;
    }
    let last = s.len() - p.len();
    let mut i: usize = 0;
    loop
        invariant
            last == s.len() - p.len(),
            i <= last,
            forall|j: int| 0 <= j < i ==> !occurs_at(s@, p@, j),
        decreases last - i,
    {
        if matches_at(s, p, i) {
            proof {
                lemma_first_sub(s@, p@, i as int);
            }
            return Some(i);
        }
        if i == last {
            assert forall|j: int| occurs_at(s@, p@, j) implies false by {
                assert(j <= last);
            }
            return None;
        }
        i = i + 1;
    }
}

/// Decides whether `p` occurs in `s`.
pub fn contains(s: &[char], p: &[char]) -> (r: bool)
    ensures
        r == has_sub(s@, p@),
{
    match find_sub(s, p) {
        Some(_) => true,
        None => false,
    }
}

/// Decides whether `s` begins with `p`.
pub fn starts_with(s: &[char], p: &[char]) -> (r: bool)
    ensures
        r == begins_with(s@, p@),
{
    matches_at(s, p, 0)
}

/// Index of the first character of class `k` in `s`, or its length.
pub open spec fn first_in(s: Seq<char>, k: CharClass) -> nat
    decreases s.len(),
{
    if s.len() == 0 {
        0
    } else if in_class(s[0], k) {
        0
    } else {
        1 + first_in(s.drop_first(), k)
    }
}

/// Removes the leading characters of class `k`.
pub open spec fn strip_start(s: Seq<char>, k: CharClass) -> Seq<char>
    decreases s.len(),
{
    if s.len() > 0 && in_class(s[0], k) {
        strip_start(s.drop_first(), k)
    } else {
        s
    }
}

/// Removes the trailing characters of class `k`.
pub open spec fn strip_end(s: Seq<char>, k: CharClass) -> Seq<char>
    decreases s.len(),
{
    if s.len() > 0 && in_class(s.last(), k) {
        strip_end(s.drop_last(), k)
    } else {
        s
    }
}

/// Removes leading and trailing characters of class `k`.
pub open spec fn strip(s: Seq<char>, k: CharClass) -> Seq<char> {
    strip_end(strip_start(s, k), k)
}

/// Removes leading and trailing whitespace, as `str::trim` does.
pub open spec fn trim(s: Seq<char>) -> Seq<char> {
    strip(s, CharClass::Whitespace)
}

/// Stripping the leading characters of a class leaves a suffix that starts at or before any
/// character outside the class.
pub proof fn lemma_strip_start_suffix(s: Seq<char>, k: CharClass, i: int) -> (d: int)
    requires
        0 <= i < s.len(),
        !in_class(s[i], k),
    ensures
        0 <= d <= i,
        strip_start(s, k) == s.skip(d),
    decreases s.len(),
{
    if s.len() > 0 && in_class(s[0], k) {
        let d = lemma_strip_start_suffix(s.drop_first(), k, i - 1);
        assert(s.drop_first().skip(d) =~= s.skip(d + 1));
        d + 1
    } else {
        assert(s.skip(0) =~= s);
        0
    }
}

/// Stripping the trailing characters of a class keeps every position up to a character
/// outside the class.
pub proof fn lemma_strip_end_keeps(t: Seq<char>, k: CharClass, j: int)
    requires
        0 <= j < t.len(),
        !in_class(t[j], k),
    ensures
        strip_end(t, k).len() > j,
    decreases t.len(),
{
    if t.len() > 0 && in_class(t.last(), k) {
        lemma_strip_end_keeps(t.drop_last(), k, j);
    }
}

/// A text with a character outside a class keeps a character after stripping the class.
pub proof fn lemma_strip_nonempty(s: Seq<char>, k: CharClass, i: int)
    requires
        0 <= i < s.len(),
        !in_class(s[i], k),
    ensures
        strip(s, k).len() > 0,
{
    let d = lemma_strip_start_suffix(s, k, i);
    assert(s.skip(d)[i - d] == s[i]);
    lemma_strip_end_keeps(s.skip(d), k, i - d);
}

/// Position of the first character of class `k` at or after `from`, or the length.
pub fn next_in_class(s: &[char], from: usize, k: CharClass) -> (r: usize)
    requires
        from <= s.len(),
    ensures
        from <= r <= s.len(),
        r - from == first_in(s@.skip(from as int), k),
        r < s.len() ==> in_class(s@[r as int], k),
        forall|j: int| from <= j < r ==> !in_class(#[trigger] s@[j], k),
{
    let mut i = from;
    while i < s.len() && !char_in_class(s[i], k)
        invariant
            from <= i <= s.len(),
            first_in(s@.skip(from as int), k) == (i - from) + first_in(s@.skip(i as int), k),
            forall|j: int| from <= j < i ==> !in_class(#[trigger] s@[j], k),
        decreases s.len() - i,
    {
        assert(s@.skip(i as int).drop_first() =~= s@.skip(i + 1));
        i = i + 1;
    }
    i
}

/// Number of leading characters of class `k` in `s[lo..hi]`; the rest is `strip_start`.
pub fn strip_start_from(s: &[char], lo: usize, hi: usize, k: CharClass) -> (r: usize)
    requires
        lo <= hi <= s.len(),
    ensures
        lo <= r <= hi,
        s@.subrange(r as int, hi as int) == strip_start(s@.subrange(lo as int, hi as int), k),
{
    let mut i = lo;
    while i < hi && char_in_class(s[i], k)
        invariant
            lo <= i <= hi <= s.len(),
            strip_start(s@.subrange(lo as int, hi as int), k) == strip_start(
                s@.subrange(i as int, hi as int),
                k,
            ),
        decreases hi - i,
    {
        assert(s@.subrange(i as int, hi as int).drop_first() =~= s@.subrange(i + 1, hi as int));
        i = i + 1;
    }
    i
}

/// End position after removing trailing characters of class `k` from `s[lo..hi]`.
pub fn strip_end_from(s: &[char], lo: usize, hi: usize, k: CharClass) -> (r: usize)
    requires
        lo <= hi <= s.len(),
    ensures
        lo <= r <= hi,
        s@.subrange(lo as int, r as int) == strip_end(s@.subrange(lo as int, hi as int), k),
{
    let mut j = hi;
    while j > lo && char_in_class(s[j - 1], k)
        invariant
            lo <= j <= hi <= s.len(),
            strip_end(s@.subrange(lo as int, hi as int), k) == strip_end(
                s@.subrange(lo as int, j as int),
                k,
            ),
        decreases j - lo,
    {
        assert(s@.subrange(lo as int, j as int).drop_last() =~= s@.subrange(lo as int, j - 1));
        j = j - 1;
    }
    j
}

/// Bounds of `s[lo..hi]` with leading and trailing characters of class `k` removed.
pub fn strip_bounds(s: &[char], lo: usize, hi: usize, k: CharClass) -> (r: (usize, usize))
    requires
        lo <= hi <= s.len(),
    ensures
        lo <= r.0 <= r.1 <= hi,
        s@.subrange(r.0 as int, r.1 as int) == strip(s@.subrange(lo as int, hi as int), k),
{
    let a = strip_start_from(s, lo, hi, k);
    let b = strip_end_from(s, a, hi, k);
    (a, b)
}

/// Removes leading and trailing characters of class `k`.
pub fn strip_chars(s: &[char], k: CharClass) -> (r: Vec<char>)
    ensures
        r@ == strip(s@, k),
{
    let (a, b) = strip_bounds(s, 0, s.len(), k);
    assert(s@.subrange(0, s.len() as int) =~= s@);
    sub_vec(s, a, b)
}

/// Removes leading characters of class `k`.
pub fn strip_start_chars(s: &[char], k: CharClass) -> (r: Vec<char>)
    ensures
        r@ == strip_start(s@, k),
{
    let a = strip_start_from(s, 0, s.len(), k);
    assert(s@.subrange(0, s.len() as int) =~= s@);
    sub_vec(s, a, s.len())
}

/// Removes leading and trailing whitespace.
pub fn trim_chars(s: &[char]) -> (r: Vec<char>)
    ensures
        r@ == trim(s@),
{
    strip_chars(s, CharClass::Whitespace)
}

/// Pieces of `s` between the characters of class `k`, as `str::split` yields them.
pub open spec fn split_by(s: Seq<char>, k: CharClass) -> Seq<Seq<char>>
    decreases s.len(),
{
    let i = first_in(s, k);
    if i >= s.len() {
        seq![s]
    } else {
        seq![s.take(i as int)].add(split_by(s.skip((i + 1) as int), k))
    }
}

/// Non-empty pieces of `s` between whitespace runs, as `str::split_whitespace` yields them.
pub open spec fn words(s: Seq<char>) -> Seq<Seq<char>> {
    split_by(s, CharClass::Whitespace).filter(|w: Seq<char>| w.len() > 0)
}

/// Removes one trailing carriage return.
pub open spec fn strip_cr(s: Seq<char>) -> Seq<char> {
    if s.len() > 0 && s.last() == '\r' {
        s.drop_last()
    } else {
        s
    }
}

/// Lines of `s` as `str::lines` yields them: split at line feeds, a final empty piece dropped,
/// and a carriage return removed before each line feed.
pub open spec fn lines(s: Seq<char>) -> Seq<Seq<char>> {
    let pieces = split_by(s, CharClass::Newline);
    let inner = pieces.drop_last().map_values(|p: Seq<char>| strip_cr(p));
    if pieces.last().len() == 0 {
        inner
    } else {
        inner.push(pieces.last())
    }
}

/// The character views of a sequence of character vectors.
pub open spec fn views(v: Seq<Vec<char>>) -> Seq<Seq<char>> {
    v.map_values(|x: Vec<char>| x@)
}

/// `split_by` always yields at least one piece.
pub proof fn lemma_split_nonempty(s: Seq<char>, k: CharClass)
    ensures
        split_by(s, k).len() >= 1,
    decreases s.len(),
{
    let i = first_in(s, k);
    if i < s.len() {
        lemma_split_nonempty(s.skip((i + 1) as int), k);
    }
}

/// Splits `s` at every character of class `k`.
pub fn split_chars(s: &[char], k: CharClass) -> (r: Vec<Vec<char>>)
    ensures
        views(r@) == split_by(s@, k),
{
    let mut r: Vec<Vec<char>> = Vec::new();
    let mut pos: usize = 0;
    assert(s@.skip(0) =~= s@);
    assert(views(r@) =~= Seq::<Seq<char>>::empty());
    loop
        invariant
            pos <= s.len(),
            split_by(s@, k) == views(r@) + split_by(s@.skip(pos as int), k),
        decreases s.len() - pos,
    {
        let ghost rest = s@.skip(pos as int);
        let e = next_in_class(s, pos, k);
        let piece = sub_vec(s, pos, e);
        assert(piece@ =~= rest.take((e - pos) as int));
        let ghost before = r@;
        r.push(piece);
        assert(views(r@) =~= views(before).push(piece@));
        if e >= s.len() {
            assert(split_by(rest, k) == seq![rest]);
            assert(rest.take((e - pos) as int) =~= rest);
            assert(views(r@) =~= views(before) + split_by(rest, k));
            return r;
        }
        assert(rest.skip((e - pos) + 1) =~= s@.skip(e + 1));
        assert(split_by(rest, k) == seq![rest.take((e - pos) as int)].add(
            split_by(s@.skip(e + 1), k),
        ));
        assert(views(before) + split_by(rest, k) =~= views(r@) + split_by(s@.skip(e + 1), k));
        pos = e + 1;
    }
}

/// Splits `s` into its whitespace-separated words.
pub fn split_words(s: &[char]) -> (r: Vec<Vec<char>>)
    ensures
        views(r@) == words(s@),
{
    let pieces = split_chars(s, CharClass::Whitespace);
    let ghost all = views(pieces@);
    let mut r: Vec<Vec<char>> = Vec::new();
    let mut i: usize = 0;
    while i < pieces.len()
        invariant
            i <= pieces.len(),
            all == views(pieces@),
            views(r@) == all.take(i as int).filter(|w: Seq<char>| w.len() > 0),
        decreases pieces.len() - i,
    {
        let ghost before = r@;
        assert(all.take(i + 1).drop_last() =~= all.take(i as int));
        assert(all.take(i + 1).last() == all[i as int]);
        reveal(Seq::filter);
        assert(all.take(i + 1).filter(|w: Seq<char>| w.len() > 0) == if all[i as int].len() > 0 {
            all.take(i as int).filter(|w: Seq<char>| w.len() > 0).push(all[i as int])
        } else {
            all.take(i as int).filter(|w: Seq<char>| w.len() > 0)
        });
        if pieces[i].len() > 0 {
            let w = sub_vec(&pieces[i], 0, pieces[i].len());
            assert(w@ =~= pieces@[i as int]@);
            r.push(w);
            assert(views(r@) =~= views(before).push(all[i as int]));
        }
        i = i + 1;
    }
    assert(all.take(pieces.len() as int) =~= all);
    r
}

/// Removes one trailing carriage return from a character slice.
pub fn strip_cr_chars(s: &[char]) -> (r: Vec<char>)
    ensures
        r@ == strip_cr(s@),
{
    if s.len() > 0 && s[s.len() - 1] == '\r' {
        let r = sub_vec(s, 0, s.len() - 1);
        assert(r@ =~= s@.drop_last());
        r
    } else {
        sub_vec(s, 0, s.len())
    }
}

/// Splits `s` into lines as `str::lines` does.
pub fn split_lines(s: &[char]) -> (r: Vec<Vec<char>>)
    ensures
        views(r@) == lines(s@),
{
    let pieces = split_chars(s, CharClass::Newline);
    let ghost all = views(pieces@);
    proof {
        lemma_split_nonempty(s@, CharClass::Newline);
    }
    let n = pieces.len() - 1;
    let mut r: Vec<Vec<char>> = Vec::new();
    let mut i: usize = 0;
    while i < n
        invariant
            n + 1 == pieces.len(),
            i <= n,
            all == views(pieces@),
            views(r@) == all.drop_last().take(i as int).map_values(|p: Seq<char>| strip_cr(p)),
        decreases n - i,
    {
        let line = strip_cr_chars(&pieces[i]);
        let ghost before = r@;
        r.push(line);
        assert(all[i as int] == pieces@[i as int]@);
        assert(views(r@) =~= views(before).push(strip_cr(all[i as int])));
        assert(all.drop_last().take(i + 1) =~= all.drop_last().take(i as int).push(all[i as int]));
        assert(views(r@) =~= all.drop_last().take(i + 1).map_values(
            |p: Seq<char>| strip_cr(p),
        ));
        i = i + 1;
    }
    assert(all.drop_last().take(n as int) =~= all.drop_last());
    if pieces[n].len() > 0 {
        let last = sub_vec(&pieces[n], 0, pieces[n].len());
        let ghost before = r@;
        assert(last@ =~= pieces@[n as int]@);
        assert(all.last() == pieces@[n as int]@);
        r.push(last);
        assert(views(r@) =~= views(before).push(all.last()));
    }
    r
}

} // verus!
