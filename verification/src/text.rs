//! Character-level helpers shared by the rest of the crate.
//!
//! Text is handled as a sequence of characters: a `String` or `&str` is read
//! through its view `Seq<char>`, and new text is assembled in a `Vec<char>`.

use vstd::prelude::*;

verus! {

/// The characters of `s`, in order.
pub fn chars_of(s: &str) -> (v: Vec<char>)
    ensures
        v@ == s@,
{
    broadcast use vstd::string::axiom_spec_iter;

    let mut v: Vec<char> = Vec::new();
    for c in it: s.chars()
        invariant
            it.seq() == s@,
            v@ == s@.take(it.index()),
    {
        v.push(c);
    }
    v
}

/// Builds a `String` out of characters with `String::from_iter`: the new
/// string holds exactly the characters of `v`, in the same order.
#[verifier::external_body]
pub(crate) fn text_of(v: &Vec<char>) -> (s: String)
    ensures
        s@ == v@,
{
    String::from_iter(v.iter())
}

/// Whether two texts hold the same characters.
pub fn same_text(a: &str, b: &str) -> (r: bool)
    ensures
        r == (a@ == b@),
{
    let x = chars_of(a);
    let y = chars_of(b);
    if x.len() != y.len() {
        return false;
    }
    let mut i: usize = 0;
    while i < x.len()
        invariant
            i <= x.len(),
            x.len() == y.len(),
            x@ == a@,
            y@ == b@,
            forall|j: int| 0 <= j < i ==> x@[j] == y@[j],
        decreases x.len() - i,
    {
        if x[i] != y[i] {
            return false;
        }
        i += 1;
    }
    assert(x@ =~= y@);
    true
}

/// Whether `c` is one of the ASCII digits `0` to `9`.
pub open spec fn is_digit(c: char) -> bool {
    '0' <= c && c <= '9'
}

/// Whether every character of `s` is an ASCII digit. The empty text counts.
pub open spec fn all_digits(s: Seq<char>) -> bool {
    forall|i: int| 0 <= i < s.len() ==> is_digit(#[trigger] s[i])
}

/// Tells whether a directory name is numeric, that is, made of ASCII digits only.
pub fn is_numeric_name(name: &str) -> (r: bool)
    ensures
        r == all_digits(name@),
{
    let v = chars_of(name);
    let mut i: usize = 0;
    while i < v.len()
        invariant
            i <= v.len(),
            v@ == name@,
            forall|j: int| 0 <= j < i ==> is_digit(#[trigger] v@[j]),
        decreases v.len() - i,
    {
        let c = v[i];
        if !(c >= '0' && c <= '9') {
            return false;
        }
        i += 1;
    }
    true
}

/// `s` with every backslash turned into a forward slash.
pub open spec fn forward_slashes(s: Seq<char>) -> Seq<char> {
    Seq::new(s.len(), |i: int| if s[i] == '\\' { '/' } else { s[i] })
}

/// The characters of `s` with every backslash turned into a forward slash.
pub fn slashes_forward(s: &str) -> (out: Vec<char>)
    ensures
        out@ == forward_slashes(s@),
{
    let v = chars_of(s);
    let mut out: Vec<char> = Vec::new();
    let mut i: usize = 0;
    while i < v.len()
        invariant
            i <= v.len(),
            v@ == s@,
            out@ == forward_slashes(s@).take(i as int),
        decreases v.len() - i,
    {
        let c = v[i];
        if c == '\\' {
            out.push('/');
        } else {
            out.push(c);
        }
        i += 1;
    }
    out
}

/// Writes a path with forward slashes only.
pub fn normalize_path(path: &str) -> (r: String)
    ensures
        r@ == forward_slashes(path@),
{
    let out = slashes_forward(path);
    text_of(&out)
}

/// Where the last segment of `s` begins: just behind its last `/`, or at 0
/// when it has none.
pub open spec fn segment_start(s: Seq<char>) -> int
    decreases s.len(),
{
    if s.len() == 0 {
        0
    } else if s.last() == '/' {
        s.len() as int
    } else {
        segment_start(s.drop_last())
    }
}

/// What follows the last `/` of `s`; all of `s` when it has none.
pub open spec fn last_segment(s: Seq<char>) -> Seq<char> {
    s.skip(segment_start(s))
}

/// Whether `s` holds no `/`.
pub open spec fn slash_free(s: Seq<char>) -> bool {
    forall|i: int| 0 <= i < s.len() ==> #[trigger] s[i] != '/'
}

/// The last segment starts inside the text, right behind a `/` unless it
/// starts at 0, and holds no `/` itself.
pub proof fn lemma_last_segment(s: Seq<char>)
    ensures
        0 <= segment_start(s) <= s.len(),
        segment_start(s) > 0 ==> s[segment_start(s) - 1] == '/',
        forall|i: int| segment_start(s) <= i < s.len() ==> #[trigger] s[i] != '/',
        slash_free(last_segment(s)),
    decreases s.len(),
{
    if s.len() > 0 && s.last() != '/' {
        let t = s.drop_last();
        lemma_last_segment(t);
        assert forall|i: int| segment_start(s) <= i < s.len() implies #[trigger] s[i] != '/' by {
            if i < t.len() {
                assert(s[i] == t[i]);
            }
        }
    }
}

/// The file name in a path written with forward slashes: its last segment.
pub fn file_name_of(path: &Vec<char>) -> (out: Vec<char>)
    ensures
        out@ == last_segment(path@),
{
    let mut start: usize = path.len();
    assert(path@.take(start as int) =~= path@);
    while start > 0 && path[start - 1] != '/'
        invariant
            start <= path.len(),
            segment_start(path@) == segment_start(path@.take(start as int)),
        decreases start,
    {
        proof {
            let t = path@.take(start as int);
            assert(t.last() == path@[start - 1]);
            assert(t.drop_last() =~= path@.take(start - 1));
        }
        start -= 1;
    }
    proof {
        let t = path@.take(start as int);
        if start > 0 {
            assert(t.last() == path@[start - 1]);
        }
        assert(segment_start(t) == start);
    }
    let mut out: Vec<char> = Vec::new();
    let mut i: usize = start;
    while i < path.len()
        invariant
            start <= i <= path.len(),
            out@ == path@.subrange(start as int, i as int),
        decreases path.len() - i,
    {
        out.push(path[i]);
        i += 1;
    }
    assert(path@.subrange(start as int, path.len() as int) =~= path@.skip(start as int));
    out
}

/// The characters that count as white space: the code points with the Unicode
/// property `White_Space`.
pub open spec fn is_space(c: char) -> bool {
    let n = c as u32;
    ||| 0x09 <= n <= 0x0D
    ||| n == 0x20
    ||| n == 0x85
    ||| n == 0xA0
    ||| n == 0x1680
    ||| 0x2000 <= n <= 0x200A
    ||| n == 0x2028
    ||| n == 0x2029
    ||| n == 0x202F
    ||| n == 0x205F
    ||| n == 0x3000
}

/// Tells whether `c` counts as white space.
pub fn is_white_space(c: char) -> (r: bool)
    ensures
        r == is_space(c),
{
    let n: u32 = c as u32;
    (0x09 <= n && n <= 0x0D) || n == 0x20 || n == 0x85 || n == 0xA0 || n == 0x1680 || (0x2000 <= n
        && n <= 0x200A) || n == 0x2028 || n == 0x2029 || n == 0x202F || n == 0x205F || n == 0x3000
}

/// The first position at or behind `from` that holds no white space; the
/// length of `s` when there is none.
pub open spec fn content_start(s: Seq<char>, from: int) -> int
    decreases s.len() - from,
{
    if from >= s.len() {
        s.len() as int
    } else if is_space(s[from]) {
        content_start(s, from + 1)
    } else {
        from
    }
}

/// The position behind the last character before `upto` that is no white
/// space; 0 when there is none.
pub open spec fn content_end(s: Seq<char>, upto: int) -> int
    decreases upto,
{
    if upto <= 0 {
        0
    } else if is_space(s[upto - 1]) {
        content_end(s, upto - 1)
    } else {
        upto
    }
}

/// `s` without the white space at its two ends.
pub open spec fn trimmed(s: Seq<char>) -> Seq<char> {
    let a = content_start(s, 0);
    let b = content_end(s, s.len() as int);
    if a < b {
        s.subrange(a, b)
    } else {
        Seq::empty()
    }
}

/// Removes the white space at both ends of `s`.
pub fn trim(s: &Vec<char>) -> (out: Vec<char>)
    ensures
        out@ == trimmed(s@),
{
    let mut a: usize = 0;
    while a < s.len() && is_white_space(s[a])
        invariant
            a <= s.len(),
            content_start(s@, 0) == content_start(s@, a as int),
        decreases s.len() - a,
    {
        a += 1;
    }
    let mut b: usize = s.len();
    while b > 0 && is_white_space(s[b - 1])
        invariant
            b <= s.len(),
            content_end(s@, s.len() as int) == content_end(s@, b as int),
        decreases b,
    {
        b -= 1;
    }
    let mut out: Vec<char> = Vec::new();
    if a < b {
        let mut i: usize = a;
        while i < b
            invariant
                a <= i <= b <= s.len(),
                out@ == s@.subrange(a as int, i as int),
            decreases b - i,
        {
            out.push(s[i]);
            i += 1;
        }
    }
    out
}

/// The code of `c`, with the ASCII capitals mapped to their small letters.
pub open spec fn folded(c: char) -> int {
    if 'A' <= c && c <= 'Z' {
        c as u32 + 32
    } else {
        c as u32 as int
    }
}

/// Whether `a` and `b` are equal once ASCII capitals and small letters are
/// taken for the same.
pub open spec fn same_ignoring_ascii_case(a: Seq<char>, b: Seq<char>) -> bool {
    &&& a.len() == b.len()
    &&& forall|i: int| 0 <= i < a.len() ==> folded(#[trigger] a[i]) == folded(b[i])
}

fn fold_char(c: char) -> (n: u32)
    ensures
        n == folded(c),
{
    let n: u32 = c as u32;
    if 'A' <= c && c <= 'Z' {
        n + 32
    } else {
        n
    }
}

/// Compares two texts without regard to the case of ASCII letters.
pub fn eq_ignore_ascii_case(a: &str, b: &str) -> (r: bool)
    ensures
        r == same_ignoring_ascii_case(a@, b@),
{
    let x = chars_of(a);
    let y = chars_of(b);
    if x.len() != y.len() {
        return false;
    }
    let mut i: usize = 0;
    while i < x.len()
        invariant
            i <= x.len(),
            x.len() == y.len(),
            x@ == a@,
            y@ == b@,
            forall|j: int| 0 <= j < i ==> folded(#[trigger] x@[j]) == folded(y@[j]),
        decreases x.len() - i,
    {
        if fold_char(x[i]) != fold_char(y[i]) {
            return false;
        }
        i += 1;
    }
    true
}

/// `s` from position `i` on, with each pair of backslashes, taken from the
/// left, replaced by one.
pub open spec fn unescaped_from(s: Seq<char>, i: int) -> Seq<char>
    decreases s.len() - i,
{
    if i >= s.len() || i < 0 {
        Seq::empty()
    } else if s[i] == '\\' && i + 1 < s.len() && s[i + 1] == '\\' {
        seq!['\\'] + unescaped_from(s, i + 2)
    } else {
        seq![s[i]] + unescaped_from(s, i + 1)
    }
}

/// `s` with each pair of backslashes, taken from the left, replaced by one.
pub open spec fn unescaped(s: Seq<char>) -> Seq<char> {
    unescaped_from(s, 0)
}

/// Replaces each doubled backslash of `s` by a single one.
pub fn unescape_backslashes(s: &str) -> (r: String)
    ensures
        r@ == unescaped(s@),
{
    let v = chars_of(s);
    let mut out: Vec<char> = Vec::new();
    let mut i: usize = 0;
    while i < v.len()
        invariant
            i <= v.len(),
            v@ == s@,
            out@ + unescaped_from(s@, i as int) == unescaped(s@),
        decreases v.len() - i,
    {
        let ghost before = out@;
        let c = v[i];
        out.push(c);
        if c == '\\' && i + 1 < v.len() && v[i + 1] == '\\' {
            assert(out@ + unescaped_from(s@, i + 2) =~= before + (seq!['\\'] + unescaped_from(
                s@,
                i + 2,
            )));
            i += 2;
        } else {
            assert(out@ + unescaped_from(s@, i + 1) =~= before + (seq![c] + unescaped_from(
                s@,
                i + 1,
            )));
            i += 1;
        }
    }
    assert(out@ + Seq::<char>::empty() =~= out@);
    text_of(&out)
}

/// Whether `a` comes before `b`, or equals it, in the order of a dictionary
/// over character codes, looking from position `i` on.
pub open spec fn ordered_from(a: Seq<char>, b: Seq<char>, i: int) -> bool
    decreases a.len() - i,
{
    if i >= a.len() || i < 0 {
        true
    } else if i >= b.len() {
        false
    } else if a[i] != b[i] {
        a[i] < b[i]
    } else {
        ordered_from(a, b, i + 1)
    }
}

/// Whether `a` comes before `b`, or equals it, in the order of a dictionary
/// over character codes. This is the order in which strings compare.
pub open spec fn text_le(a: Seq<char>, b: Seq<char>) -> bool {
    ordered_from(a, b, 0)
}

/// Tells whether `a` sorts before `b` or equals it.
pub fn text_before_eq(a: &Vec<char>, b: &Vec<char>) -> (r: bool)
    ensures
        r == text_le(a@, b@),
{
    let mut i: usize = 0;
    while i < a.len()
        invariant
            i <= a.len(),
            text_le(a@, b@) == ordered_from(a@, b@, i as int),
        decreases a.len() - i,
    {
        if i >= b.len() {
            return false;
        }
        if a[i] != b[i] {
            return a[i] < b[i];
        }
        i += 1;
    }
    true
}

/// Any two texts compare one way or the other.
pub proof fn lemma_text_le_total(a: Seq<char>, b: Seq<char>)
    ensures
        text_le(a, b) || text_le(b, a),
{
    lemma_ordered_total(a, b, 0);
}

proof fn lemma_ordered_total(a: Seq<char>, b: Seq<char>, i: int)
    requires
        0 <= i,
    ensures
        ordered_from(a, b, i) || ordered_from(b, a, i),
    decreases a.len() - i,
{
    if i < a.len() && i < b.len() && a[i] == b[i] {
        lemma_ordered_total(a, b, i + 1);
    }
}

/// The order of texts is transitive.
pub proof fn lemma_text_le_transitive(a: Seq<char>, b: Seq<char>, c: Seq<char>)
    requires
        text_le(a, b),
        text_le(b, c),
    ensures
        text_le(a, c),
{
    lemma_ordered_transitive(a, b, c, 0);
}

proof fn lemma_ordered_transitive(a: Seq<char>, b: Seq<char>, c: Seq<char>, i: int)
    requires
        0 <= i,
        ordered_from(a, b, i),
        ordered_from(b, c, i),
    ensures
        ordered_from(a, c, i),
    decreases a.len() - i,
{
    if i < a.len() && i < b.len() && i < c.len() && a[i] == b[i] && b[i] == c[i] {
        lemma_ordered_transitive(a, b, c, i + 1);
    }
}

/// The views of a list of values.
pub open spec fn views<T: View>(v: Seq<T>) -> Seq<T::V> {
    Seq::new(v.len(), |i: int| v[i]@)
}

/// The views of a list of texts.
pub open spec fn texts(v: Seq<String>) -> Seq<Seq<char>> {
    Seq::new(v.len(), |i: int| v[i]@)
}

/// Tells whether `list` holds the text `x`.
pub fn contains_text(list: &Vec<String>, x: &str) -> (r: bool)
    ensures
        r == texts(list@).contains(x@),
{
    let mut i: usize = 0;
    while i < list.len()
        invariant
            i <= list.len(),
            forall|j: int| 0 <= j < i ==> texts(list@)[j] != x@,
        decreases list.len() - i,
    {
        if same_text(list[i].as_str(), x) {
            assert(texts(list@)[i as int] == x@);
            return true;
        }
        i += 1;
    }
    false
}

/// A copy of a list of texts.
pub fn copy_texts(list: &Vec<String>) -> (r: Vec<String>)
    ensures
        texts(r@) == texts(list@),
{
    let mut r: Vec<String> = Vec::new();
    let mut i: usize = 0;
    while i < list.len()
        invariant
            i <= list.len(),
            r.len() == i,
            forall|j: int| 0 <= j < i ==> (#[trigger] r@[j])@ == list@[j]@,
        decreases list.len() - i,
    {
        r.push(list[i].clone());
        i += 1;
    }
    assert(texts(r@) =~= texts(list@));
    r
}

/// A copy of `s`.
pub fn copy_text(s: &str) -> (r: String)
    ensures
        r@ == s@,
{
    s.to_owned()
}

/// `a` followed by `b`.
pub fn join_text(a: &str, b: &str) -> (r: String)
    ensures
        r@ == a@ + b@,
{
    let mut r = a.to_owned();
    r.append(b);
    r
}

} // verus!
