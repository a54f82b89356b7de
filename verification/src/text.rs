//! Text as sequences of characters: searching, trimming, splitting, joining
//! and decimal numerals.
use vstd::prelude::*;

verus! {

broadcast use vstd::string::group_string_axioms;

// ---------------------------------------------------------------------------
// Trusted facts about std
// ---------------------------------------------------------------------------

/// The characters with the Unicode property `White_Space`.
pub open spec fn white(c: char) -> bool {
    let n = c as u32;
    ||| 0x9 <= n <= 0xd
    ||| n == 0x20
    ||| n == 0x85
    ||| n == 0xa0
    ||| n == 0x1680
    ||| 0x2000 <= n <= 0x200a
    ||| n == 0x2028
    ||| n == 0x2029
    ||| n == 0x202f
    ||| n == 0x205f
    ||| n == 0x3000
}

/// `char::is_whitespace`: holds of the characters with the Unicode property
/// `White_Space`, listed in `white`.
pub assume_specification[ char::is_whitespace ](c: char) -> (r: bool)
    ensures
        r == white(c),
;

/// `String::push` appends one character.
pub assume_specification[ String::push ](s: &mut String, c: char)
    ensures
        final(s)@ == old(s)@.push(c),
;

/// Every character is ASCII.
pub open spec fn ascii(s: Seq<char>) -> bool {
    forall|i: int| 0 <= i < s.len() ==> #[trigger] s[i] as u32 <= 127
}

/// An ASCII letter in lower case; any other character as it is.
pub open spec fn ascii_lower_char(c: char) -> char {
    if 'A' <= c <= 'Z' {
        (c as u32 + 32) as char
    } else {
        c
    }
}

/// An ASCII letter in upper case; any other character as it is.
pub open spec fn ascii_upper_char(c: char) -> char {
    if 'a' <= c <= 'z' {
        (c as u32 - 32) as char
    } else {
        c
    }
}

/// ASCII letters in lower case, everything else unchanged.
pub open spec fn ascii_lower(s: Seq<char>) -> Seq<char> {
    s.map_values(|c: char| ascii_lower_char(c))
}

/// ASCII letters in upper case, everything else unchanged.
pub open spec fn ascii_upper(s: Seq<char>) -> Seq<char> {
    s.map_values(|c: char| ascii_upper_char(c))
}

/// What `str::to_lowercase` makes of a text that is not all ASCII.
pub uninterp spec fn lowercase(s: Seq<char>) -> Seq<char>;

/// What `str::to_uppercase` makes of a text that is not all ASCII.
pub uninterp spec fn uppercase(s: Seq<char>) -> Seq<char>;

/// `str::to_lowercase`. The result depends on the text alone; an ASCII text is
/// mapped letter by letter. The Unicode tables behind other texts are not
/// stated.
#[verifier::external_body]
pub(crate) fn to_lowercase(s: &str) -> (r: String)
    ensures
        r@ == if ascii(s@) {
            ascii_lower(s@)
        } else {
            lowercase(s@)
        },
{
    s.to_lowercase()
}

/// `str::to_uppercase`. The result depends on the text alone; an ASCII text is
/// mapped letter by letter. The Unicode tables behind other texts are not
/// stated.
#[verifier::external_body]
pub(crate) fn to_uppercase(s: &str) -> (r: String)
    ensures
        r@ == if ascii(s@) {
            ascii_upper(s@)
        } else {
            uppercase(s@)
        },
{
    s.to_uppercase()
}

/// A text in lower case.
pub open spec fn lowered(s: Seq<char>) -> Seq<char> {
    if ascii(s) {
        ascii_lower(s)
    } else {
        lowercase(s)
    }
}

/// A text in upper case.
pub open spec fn uppered(s: Seq<char>) -> Seq<char> {
    if ascii(s) {
        ascii_upper(s)
    } else {
        uppercase(s)
    }
}

// ---------------------------------------------------------------------------
// Characters in and out of strings
// ---------------------------------------------------------------------------

/// The texts of a sequence of strings.
pub open spec fn strs(v: Seq<String>) -> Seq<Seq<char>> {
    Seq::new(v.len(), |i: int| v[i]@)
}

/// The text of an optional string.
pub open spec fn opt_text(s: Option<String>) -> Option<Seq<char>> {
    match s {
        Some(t) => Some(t@),
        None => None,
    }
}

/// The text of an optional string slice.
pub open spec fn opt_str(s: Option<&str>) -> Option<Seq<char>> {
    match s {
        Some(t) => Some(t@),
        None => None,
    }
}

/// The text, or `other` where there is none.
pub open spec fn text_or(s: Option<Seq<char>>, other: Seq<char>) -> Seq<char> {
    match s {
        Some(t) => t,
        None => other,
    }
}

/// The views after one more text.
pub proof fn lemma_strs_push(v: Seq<String>, s: String)
    ensures
        strs(v.push(s)) == strs(v).push(s@),
{
    assert(strs(v.push(s)) =~= strs(v).push(s@));
}

/// A copy of the texts.
pub fn copy_texts(v: &Vec<String>) -> (r: Vec<String>)
    ensures
        strs(r@) == strs(v@),
{
    let mut out: Vec<String> = Vec::new();
    let mut i: usize = 0;
    while i < v.len()
        invariant
            i <= v@.len(),
            out@.len() == i,
            forall|k: int| 0 <= k < i ==> (#[trigger] out@[k])@ == v@[k]@,
        decreases v@.len() - i,
    {
        out.push(v[i].clone());
        i = i + 1;
    }
    assert(strs(out@) =~= strs(v@));
    out
}

/// The characters of a string.
pub fn chars_of(s: &str) -> (v: Vec<char>)
    ensures
        v@ == s@,
{
    let mut v: Vec<char> = Vec::new();
    for c in it: s.chars()
        invariant
            it.seq() == s@,
            v@ == s@.take(it.index()),
    {
        v.push(c);
        proof {
            assert(s@.take(it.index() + 1) =~= s@.take(it.index()).push(c));
        }
    }
    assert(s@.take(s@.len() as int) =~= s@);
    v
}

/// The string made of a range of characters.
pub fn string_of(cs: &Vec<char>, from: usize, to: usize) -> (s: String)
    requires
        from <= to <= cs@.len(),
    ensures
        s@ == cs@.subrange(from as int, to as int),
{
    let mut s = String::new();
    let mut i: usize = from;
    while i < to
        invariant
            from <= i <= to <= cs@.len(),
            s@ == cs@.subrange(from as int, i as int),
        decreases to - i,
    {
        s.push(cs[i]);
        proof {
            assert(cs@.subrange(from as int, i + 1) =~= cs@.subrange(from as int, i as int).push(
                cs@[i as int],
            ));
        }
        i = i + 1;
    }
    s
}

/// Appends a text.
pub fn push_text(s: &mut String, t: &str)
    ensures
        final(s)@ == old(s)@ + t@,
{
    s.append(t);
}

/// Whether two texts are the same.
pub fn same(a: &str, b: &str) -> (r: bool)
    ensures
        r == (a@ == b@),
{
    let x = chars_of(a);
    let y = chars_of(b);
    if x.len() != y.len() {
        return false;
    }
    let mut i: usize = 0;
    while i < x.len()
        invariant
            i <= x@.len(),
            x@.len() == y@.len(),
            x@ == a@,
            y@ == b@,
            forall|k: int| 0 <= k < i ==> x@[k] == y@[k],
        decreases x@.len() - i,
    {
        if x[i] != y[i] {
            return false;
        }
        i = i + 1;
    }
    assert(x@ =~= y@);
    true
}

// ---------------------------------------------------------------------------
// Searching
// ---------------------------------------------------------------------------

/// `n` stands in `h` at position `i`.
pub open spec fn occurs_at(h: Seq<char>, n: Seq<char>, i: int) -> bool {
    &&& 0 <= i
    &&& i + n.len() <= h.len()
    &&& h.subrange(i, i + n.len()) == n
}

/// `n` stands somewhere in `h`.
pub open spec fn has_text(h: Seq<char>, n: Seq<char>) -> bool {
    exists|i: int| occurs_at(h, n, i)
}

/// `c` is one of the characters of `s`.
pub open spec fn has_char(s: Seq<char>, c: char) -> bool {
    exists|i: int| 0 <= i < s.len() && s[i] == c
}

/// `h` begins with `n`.
pub open spec fn starts(h: Seq<char>, n: Seq<char>) -> bool {
    n.len() <= h.len() && h.take(n.len() as int) == n
}

/// `n` stands in `h` at `i` and nowhere later.
pub open spec fn last_at(h: Seq<char>, n: Seq<char>, i: int) -> bool {
    &&& occurs_at(h, n, i)
    &&& forall|j: int| i < j ==> !occurs_at(h, n, j)
}

fn match_at(h: &Vec<char>, n: &Vec<char>, i: usize) -> (r: bool)
    ensures
        r == occurs_at(h@, n@, i as int),
{
    if n.len() > h.len() || i > h.len() - n.len() {
        return false;
    }
    let top: usize = h.len();
    let mut k: usize = 0;
    while k < n.len()
        invariant
            k <= n@.len(),
            i + n@.len() <= h@.len(),
            h@.len() == top,
            forall|m: int| 0 <= m < k ==> h@[i + m] == n@[m],
        decreases n@.len() - k,
    {
        if h[i + k] != n[k] {
            assert(h@.subrange(i as int, i + n@.len())[k as int] != n@[k as int]);
            return false;
        }
        k = k + 1;
    }
    assert(h@.subrange(i as int, i + n@.len()) =~= n@);
    true
}

/// Whether `needle` stands somewhere in `text`.
pub fn contains(text: &str, needle: &str) -> (r: bool)
    ensures
        r == has_text(text@, needle@),
{
    let h = chars_of(text);
    let n = chars_of(needle);
    if n.len() > h.len() {
        return false;
    }
    let mut i: usize = 0;
    while i <= h.len() - n.len()
        invariant
            h@ == text@,
            n@ == needle@,
            n@.len() <= h@.len(),
            i <= h@.len() - n@.len() + 1,
            forall|j: int| 0 <= j < i ==> !occurs_at(h@, n@, j),
        decreases h@.len() - i + 1,
    {
        if match_at(&h, &n, i) {
            return true;
        }
        if i == h.len() - n.len() {
            return false;
        }
        i = i + 1;
    }
    false
}

/// Whether `c` is one of the characters of `text`.
pub fn contains_char(text: &str, c: char) -> (r: bool)
    ensures
        r == has_char(text@, c),
{
    let h = chars_of(text);
    let mut i: usize = 0;
    while i < h.len()
        invariant
            h@ == text@,
            i <= h@.len(),
            forall|j: int| 0 <= j < i ==> h@[j] != c,
        decreases h@.len() - i,
    {
        if h[i] == c {
            return true;
        }
        i = i + 1;
    }
    false
}

/// Whether one of `needles` stands in `text`.
pub fn contains_any(text: &str, needles: &[&str]) -> (r: bool)
    ensures
        r == has_any(text@, needles@),
{
    let mut i: usize = 0;
    while i < needles.len()
        invariant
            i <= needles@.len(),
            forall|j: int| 0 <= j < i ==> !has_text(text@, #[trigger] needles@[j]@),
        decreases needles@.len() - i,
    {
        if contains(text, needles[i]) {
            return true;
        }
        i = i + 1;
    }
    false
}

/// One of `needles` stands in `h`.
pub open spec fn has_any(h: Seq<char>, needles: Seq<&str>) -> bool {
    exists|j: int| 0 <= j < needles.len() && has_text(h, #[trigger] needles[j]@)
}

/// Whether `text` is one of `words`.
pub fn is_one_of(text: &str, words: &[&str]) -> (r: bool)
    ensures
        r == one_of(text@, words@),
{
    let mut i: usize = 0;
    while i < words.len()
        invariant
            i <= words@.len(),
            forall|j: int| 0 <= j < i ==> text@ != #[trigger] words@[j]@,
        decreases words@.len() - i,
    {
        if same(text, words[i]) {
            return true;
        }
        i = i + 1;
    }
    false
}

/// `s` is one of `words`.
pub open spec fn one_of(s: Seq<char>, words: Seq<&str>) -> bool {
    exists|j: int| 0 <= j < words.len() && s == #[trigger] words[j]@
}

/// Whether `text` begins with `prefix`.
pub fn starts_with(text: &str, prefix: &str) -> (r: bool)
    ensures
        r == starts(text@, prefix@),
{
    let h = chars_of(text);
    let n = chars_of(prefix);
    let r = match_at(&h, &n, 0);
    assert(h@.subrange(0, n@.len() as int) =~= h@.take(n@.len() as int));
    r
}

/// What follows `prefix` in a text that begins with it.
pub open spec fn after_prefix(h: Seq<char>, n: Seq<char>) -> Option<Seq<char>> {
    if starts(h, n) {
        Some(h.skip(n.len() as int))
    } else {
        None
    }
}

/// What follows `prefix` in `text`, where `text` begins with it.
pub fn strip_prefix(text: &str, prefix: &str) -> (r: Option<String>)
    ensures
        opt_text(r) == after_prefix(text@, prefix@),
{
    let h = chars_of(text);
    let n = chars_of(prefix);
    if starts_with(text, prefix) {
        let rest = string_of(&h, n.len(), h.len());
        assert(rest@ =~= text@.skip(prefix@.len() as int));
        Some(rest)
    } else {
        None
    }
}

/// The last position at which `needle` stands in `text`.
pub fn rfind(text: &Vec<char>, needle: &str) -> (r: Option<usize>)
    ensures
        match r {
            Some(i) => last_at(text@, needle@, i as int),
            None => !has_text(text@, needle@),
        },
{
    let n = chars_of(needle);
    if n.len() > text.len() {
        return None;
    }
    let top: usize = text.len() - n.len();
    let mut i: usize = top;
    loop
        invariant
            n@ == needle@,
            n@.len() <= text@.len(),
            top == text@.len() - n@.len(),
            i <= top,
            forall|j: int| i < j ==> !occurs_at(text@, n@, j),
        decreases i,
    {
        if match_at(text, &n, i) {
            return Some(i);
        }
        if i == 0 {
            return None;
        }
        i = i - 1;
    }
}

// ---------------------------------------------------------------------------
// Trimming
// ---------------------------------------------------------------------------

/// The last position of `c`; -1 where there is none.
pub open spec fn last_pos(s: Seq<char>, c: char) -> int
    decreases s.len(),
{
    if s.len() == 0 {
        -1
    } else if s.last() == c {
        s.len() - 1
    } else {
        last_pos(s.drop_last(), c)
    }
}

/// What stands before and after the last `c`; `None` where there is none.
pub open spec fn split_last(s: Seq<char>, c: char) -> Option<(Seq<char>, Seq<char>)> {
    let i = last_pos(s, c);
    if i < 0 {
        None
    } else {
        Some((s.take(i), s.skip(i + 1)))
    }
}

/// What stands before and after the last `c`.
pub fn rsplit_once(s: &str, c: char) -> (r: Option<(String, String)>)
    ensures
        match r {
            Some(p) => split_last(s@, c) == Some((p.0@, p.1@)),
            None => split_last(s@, c) is None,
        },
{
    let cs = chars_of(s);
    let mut i: usize = cs.len();
    assert(cs@.take(i as int) =~= cs@);
    while i > 0
        invariant
            cs@ == s@,
            i <= cs@.len(),
            last_pos(s@, c) == last_pos(cs@.take(i as int), c),
        decreases i,
    {
        i = i - 1;
        assert(cs@.take(i + 1).drop_last() =~= cs@.take(i as int));
        if cs[i] == c {
            let a = string_of(&cs, 0, i);
            let b = string_of(&cs, i + 1, cs.len());
            assert(a@ =~= s@.take(i as int));
            assert(b@ =~= s@.skip(i + 1));
            return Some((a, b));
        }
    }
    None
}

/// The text without its leading white space.
pub open spec fn trim_front(s: Seq<char>) -> Seq<char>
    decreases s.len(),
{
    if s.len() > 0 && white(s[0]) {
        trim_front(s.skip(1))
    } else {
        s
    }
}

/// The text without its trailing white space.
pub open spec fn trim_back(s: Seq<char>) -> Seq<char>
    decreases s.len(),
{
    if s.len() > 0 && white(s.last()) {
        trim_back(s.drop_last())
    } else {
        s
    }
}

/// The text without white space at either end.
pub open spec fn trimmed(s: Seq<char>) -> Seq<char> {
    trim_back(trim_front(s))
}

/// The text without the copies of `c` at its end.
pub open spec fn trim_back_char(s: Seq<char>, c: char) -> Seq<char>
    decreases s.len(),
{
    if s.len() > 0 && s.last() == c {
        trim_back_char(s.drop_last(), c)
    } else {
        s
    }
}

/// The text without the copies of `c` at its start.
pub open spec fn trim_front_char(s: Seq<char>, c: char) -> Seq<char>
    decreases s.len(),
{
    if s.len() > 0 && s[0] == c {
        trim_front_char(s.skip(1), c)
    } else {
        s
    }
}

/// The text without the copies of `n` at its start, for a non-empty `n`.
pub open spec fn trim_front_text(s: Seq<char>, n: Seq<char>) -> Seq<char>
    decreases s.len(),
{
    if n.len() > 0 && starts(s, n) {
        trim_front_text(s.skip(n.len() as int), n)
    } else {
        s
    }
}

/// `s.trim_start()`.
pub fn trim_start(s: &str) -> (r: String)
    ensures
        r@ == trim_front(s@),
{
    let cs = chars_of(s);
    let mut i: usize = 0;
    assert(cs@.skip(0) =~= cs@);
    while i < cs.len() && cs[i].is_whitespace()
        invariant
            cs@ == s@,
            i <= cs@.len(),
            trim_front(s@) == trim_front(cs@.skip(i as int)),
        decreases cs@.len() - i,
    {
        assert(cs@.skip(i as int).skip(1) =~= cs@.skip(i + 1));
        i = i + 1;
    }
    let r = string_of(&cs, i, cs.len());
    assert(r@ =~= cs@.skip(i as int));
    r
}

/// `s.trim_end()`.
pub fn trim_end(s: &str) -> (r: String)
    ensures
        r@ == trim_back(s@),
{
    let cs = chars_of(s);
    let mut i: usize = cs.len();
    assert(cs@.take(cs@.len() as int) =~= cs@);
    while i > 0 && cs[i - 1].is_whitespace()
        invariant
            cs@ == s@,
            i <= cs@.len(),
            trim_back(s@) == trim_back(cs@.take(i as int)),
        decreases i,
    {
        assert(cs@.take(i as int).drop_last() =~= cs@.take(i - 1));
        i = i - 1;
    }
    let r = string_of(&cs, 0, i);
    assert(r@ =~= cs@.take(i as int));
    r
}

/// `s.trim()`.
pub fn trim(s: &str) -> (r: String)
    ensures
        r@ == trimmed(s@),
{
    let t = trim_start(s);
    trim_end(t.as_str())
}

/// `s.trim_end_matches(c)`.
pub fn trim_end_char(s: &str, c: char) -> (r: String)
    ensures
        r@ == trim_back_char(s@, c),
{
    let cs = chars_of(s);
    let mut i: usize = cs.len();
    assert(cs@.take(cs@.len() as int) =~= cs@);
    while i > 0 && cs[i - 1] == c
        invariant
            cs@ == s@,
            i <= cs@.len(),
            trim_back_char(s@, c) == trim_back_char(cs@.take(i as int), c),
        decreases i,
    {
        assert(cs@.take(i as int).drop_last() =~= cs@.take(i - 1));
        i = i - 1;
    }
    let r = string_of(&cs, 0, i);
    assert(r@ =~= cs@.take(i as int));
    r
}

/// `s.trim_matches(c)`.
pub fn trim_char(s: &str, c: char) -> (r: String)
    ensures
        r@ == trim_back_char(trim_front_char(s@, c), c),
{
    let cs = chars_of(s);
    let mut i: usize = 0;
    assert(cs@.skip(0) =~= cs@);
    while i < cs.len() && cs[i] == c
        invariant
            cs@ == s@,
            i <= cs@.len(),
            trim_front_char(s@, c) == trim_front_char(cs@.skip(i as int), c),
        decreases cs@.len() - i,
    {
        assert(cs@.skip(i as int).skip(1) =~= cs@.skip(i + 1));
        i = i + 1;
    }
    let front = string_of(&cs, i, cs.len());
    assert(front@ =~= cs@.skip(i as int));
    trim_end_char(front.as_str(), c)
}

/// `s.trim_start_matches(n)` for a non-empty `n`.
pub fn trim_start_text(s: &str, n: &str) -> (r: String)
    requires
        n@.len() > 0,
    ensures
        r@ == trim_front_text(s@, n@),
{
    let cs = chars_of(s);
    let ns = chars_of(n);
    let top: usize = cs.len();
    let mut i: usize = 0;
    assert(cs@.skip(0) =~= cs@);
    while match_at(&cs, &ns, i)
        invariant
            cs@ == s@,
            cs@.len() == top,
            ns@ == n@,
            n@.len() > 0,
            i <= cs@.len(),
            trim_front_text(s@, n@) == trim_front_text(cs@.skip(i as int), n@),
        decreases cs@.len() - i,
    {
        assert(cs@.skip(i as int).take(ns@.len() as int) =~= cs@.subrange(
            i as int,
            i + ns@.len(),
        ));
        assert(cs@.skip(i as int).skip(ns@.len() as int) =~= cs@.skip(i + ns@.len()));
        i = i + ns.len();
    }
    let r = string_of(&cs, i, cs.len());
    assert(r@ =~= cs@.skip(i as int));
    assert(!starts(r@, n@)) by {
        if starts(r@, n@) {
            assert(cs@.subrange(i as int, i + ns@.len()) =~= r@.take(ns@.len() as int));
        }
    }
    r
}

/// Whether `s` holds nothing but white space.
pub fn is_blank(s: &str) -> (r: bool)
    ensures
        r == blank(s@),
{
    let t = trim(s);
    t.as_str().is_empty()
}

/// Nothing but white space.
pub open spec fn blank(s: Seq<char>) -> bool {
    trimmed(s).len() == 0
}

// ---------------------------------------------------------------------------
// Splitting, joining, replacing
// ---------------------------------------------------------------------------

/// The position of the first `c` in `s`, or the length of `s`.
pub open spec fn first_pos(s: Seq<char>, c: char) -> int
    decreases s.len(),
{
    if s.len() == 0 || s[0] == c {
        0
    } else {
        1 + first_pos(s.skip(1), c)
    }
}

/// Where a character stands first, nothing before it is that character.
pub proof fn lemma_first_pos(s: Seq<char>, c: char)
    ensures
        0 <= first_pos(s, c) <= s.len(),
        first_pos(s, c) < s.len() ==> s[first_pos(s, c)] == c,
        forall|i: int| 0 <= i < first_pos(s, c) ==> s[i] != c,
    decreases s.len(),
{
    if s.len() > 0 && s[0] != c {
        lemma_first_pos(s.skip(1), c);
        assert forall|i: int| 0 <= i < first_pos(s, c) implies s[i] != c by {
            if i > 0 {
                assert(s[i] == s.skip(1)[i - 1]);
            }
        }
    }
}

/// One line without the carriage return that belongs to its line feed.
pub open spec fn without_cr(s: Seq<char>) -> Seq<char> {
    if s.len() > 0 && s.last() == '\r' {
        s.drop_last()
    } else {
        s
    }
}

/// The lines of a text: each ends at a line feed, which is not part of it, nor
/// is a carriage return right before the line feed. An empty last line is
/// none.
pub open spec fn lines_of(s: Seq<char>) -> Seq<Seq<char>>
    decreases s.len(),
{
    if s.len() == 0 {
        Seq::empty()
    } else {
        let i = first_pos(s, '\n');
        if 0 <= i < s.len() {
            seq![without_cr(s.take(i))] + lines_of(s.skip(i + 1))
        } else {
            seq![s]
        }
    }
}

/// `s.lines()`.
pub fn lines(s: &str) -> (r: Vec<String>)
    ensures
        strs(r@) == lines_of(s@),
{
    let cs = chars_of(s);
    let mut out: Vec<String> = Vec::new();
    let mut from: usize = 0;
    assert(cs@.skip(0) =~= cs@);
    assert(strs(out@) + lines_of(cs@.skip(0)) =~= lines_of(s@));
    while from < cs.len()
        invariant
            cs@ == s@,
            from <= cs@.len(),
            lines_of(s@) == strs(out@) + lines_of(cs@.skip(from as int)),
        decreases cs@.len() - from,
    {
        let ghost rest = cs@.skip(from as int);
        let mut end: usize = from;
        while end < cs.len() && cs[end] != '\n'
            invariant
                from <= end <= cs@.len(),
                forall|k: int| from <= k < end ==> cs@[k] != '\n',
            decreases cs@.len() - end,
        {
            end = end + 1;
        }
        proof {
            lemma_first_pos(rest, '\n');
            let p = first_pos(rest, '\n');
            if p < end - from {
                assert(rest[p] == cs@[from + p]);
            }
            if p > end - from {
                assert(rest[end - from] == cs@[end as int]);
            }
            assert(p == end - from);
        }
        let ghost before = out@;
        if end < cs.len() {
            let stop: usize = if end > from && cs[end - 1] == '\r' {
                end - 1
            } else {
                end
            };
            let line = string_of(&cs, from, stop);
            proof {
                assert(rest.take(end - from) =~= cs@.subrange(from as int, end as int));
                assert(line@ =~= without_cr(rest.take(end - from)));
                assert(rest.skip(end - from + 1) =~= cs@.skip(end + 1));
                lemma_strs_push(before, line);
            }
            out.push(line);
            from = end + 1;
            proof {
                assert(lines_of(s@) =~= strs(out@) + lines_of(cs@.skip(from as int)));
            }
        } else {
            let line = string_of(&cs, from, end);
            proof {
                assert(line@ =~= rest);
                lemma_strs_push(before, line);
            }
            out.push(line);
            from = end;
            proof {
                assert(cs@.skip(from as int).len() == 0);
                assert(lines_of(s@) =~= strs(out@) + lines_of(cs@.skip(from as int)));
            }
        }
    }
    assert(cs@.skip(from as int).len() == 0);
    assert(strs(out@) =~= lines_of(s@));
    out
}

/// The parts in order, with `sep` between neighbours.
pub open spec fn joined(parts: Seq<Seq<char>>, sep: Seq<char>) -> Seq<char>
    decreases parts.len(),
{
    if parts.len() == 0 {
        Seq::empty()
    } else if parts.len() == 1 {
        parts[0]
    } else {
        joined(parts.drop_last(), sep) + sep + parts.last()
    }
}

/// `parts.join(sep)`.
pub fn join(parts: &Vec<String>, sep: &str) -> (r: String)
    ensures
        r@ == joined(strs(parts@), sep@),
{
    let mut out = String::new();
    let mut i: usize = 0;
    let ghost all = strs(parts@);
    while i < parts.len()
        invariant
            all == strs(parts@),
            i <= parts@.len(),
            out@ == joined(all.take(i as int), sep@),
        decreases parts@.len() - i,
    {
        if i > 0 {
            out.append(sep);
        }
        out.append(parts[i].as_str());
        proof {
            assert(all.take(i + 1).drop_last() =~= all.take(i as int));
            assert(out@ =~= joined(all.take(i + 1), sep@));
        }
        i = i + 1;
    }
    assert(all.take(i as int) =~= all);
    out
}

/// Every copy of `n` in `s`, from the left and without overlap, replaced by
/// `with`. `n` is not empty.
pub open spec fn replaced(s: Seq<char>, n: Seq<char>, with: Seq<char>) -> Seq<char>
    decreases s.len(),
{
    if n.len() == 0 || s.len() == 0 {
        s
    } else if starts(s, n) {
        with + replaced(s.skip(n.len() as int), n, with)
    } else {
        seq![s[0]] + replaced(s.skip(1), n, with)
    }
}

/// `s.replace(needle, with)` for a non-empty `needle`.
pub fn replace(s: &str, needle: &str, with: &str) -> (r: String)
    requires
        needle@.len() > 0,
    ensures
        r@ == replaced(s@, needle@, with@),
{
    let cs = chars_of(s);
    let ns = chars_of(needle);
    let top: usize = cs.len();
    let mut out = String::new();
    let mut i: usize = 0;
    assert(cs@.skip(0) =~= cs@);
    assert(out@ + replaced(cs@.skip(0), needle@, with@) =~= replaced(s@, needle@, with@));
    while i < cs.len()
        invariant
            cs@ == s@,
            ns@ == needle@,
            ns@.len() > 0,
            cs@.len() == top,
            i <= top,
            replaced(s@, needle@, with@) == out@ + replaced(
                cs@.skip(i as int),
                needle@,
                with@,
            ),
        decreases top - i,
    {
        let ghost rest = cs@.skip(i as int);
        let ghost before = out@;
        if match_at(&cs, &ns, i) {
            assert(rest.take(ns@.len() as int) =~= cs@.subrange(i as int, i + ns@.len()));
            assert(rest.skip(ns@.len() as int) =~= cs@.skip(i + ns@.len()));
            out.append(with);
            i = i + ns.len();
        } else {
            assert(!starts(rest, ns@)) by {
                if starts(rest, ns@) {
                    assert(rest.take(ns@.len() as int) =~= cs@.subrange(i as int, i + ns@.len()));
                }
            }
            assert(rest.skip(1) =~= cs@.skip(i + 1));
            out.push(cs[i]);
            i = i + 1;
        }
        assert(replaced(s@, needle@, with@) =~= out@ + replaced(
            cs@.skip(i as int),
            needle@,
            with@,
        ));
    }
    assert(cs@.skip(i as int).len() == 0);
    assert(out@ =~= replaced(s@, needle@, with@));
    out
}

// ---------------------------------------------------------------------------
// Decimal numerals
// ---------------------------------------------------------------------------

/// The numeral of a digit.
pub open spec fn digit_char(d: nat) -> char {
    (48 + d) as char
}

/// The numerals.
pub open spec fn is_digit(c: char) -> bool {
    '0' <= c <= '9'
}

/// The number that a numeral stands for.
pub open spec fn digit_value(c: char) -> nat {
    (c as u32 - 48) as nat
}

/// The decimal numeral of a natural number, without leading zeros.
pub open spec fn decimal(n: nat) -> Seq<char>
    decreases n,
{
    if n < 10 {
        seq![digit_char(n)]
    } else {
        decimal(n / 10).push(digit_char(n % 10))
    }
}

/// The decimal numeral of an integer.
pub open spec fn signed_decimal(n: int) -> Seq<char> {
    if n < 0 {
        seq!['-'] + decimal((-n) as nat)
    } else {
        decimal(n as nat)
    }
}

/// Nothing but digits.
pub open spec fn all_digits(s: Seq<char>) -> bool {
    forall|i: int| 0 <= i < s.len() ==> is_digit(#[trigger] s[i])
}

/// The number that a row of digits stands for.
pub open spec fn digits_value(s: Seq<char>) -> nat
    decreases s.len(),
{
    if s.len() == 0 {
        0
    } else {
        digits_value(s.drop_last()) * 10 + digit_value(s.last())
    }
}

/// The numeral of a number has that number as its value.
pub proof fn lemma_decimal(n: nat)
    ensures
        decimal(n).len() > 0,
        all_digits(decimal(n)),
        digits_value(decimal(n)) == n,
    decreases n,
{
    if n < 10 {
        let s = decimal(n);
        assert(s.drop_last().len() == 0);
        assert(digits_value(s.drop_last()) == 0);
    } else {
        lemma_decimal(n / 10);
        let s = decimal(n);
        assert(s.drop_last() =~= decimal(n / 10));
        assert(s.last() == digit_char(n % 10));
    }
}

proof fn lemma_digits_value_grows(s: Seq<char>, k: int)
    requires
        0 <= k <= s.len(),
    ensures
        digits_value(s.take(k)) <= digits_value(s),
    decreases s.len() - k,
{
    if k == s.len() {
        assert(s.take(k) =~= s);
    } else {
        lemma_digits_value_grows(s, k + 1);
        assert(s.take(k + 1).drop_last() =~= s.take(k));
    }
}

/// The decimal numeral of a number.
pub fn nat_to_string(n: u128) -> (r: String)
    ensures
        r@ == decimal(n as nat),
    decreases n,
{
    if n < 10 {
        let mut s = String::new();
        s.push((48 + n as u8) as char);
        assert(s@ =~= decimal(n as nat));
        s
    } else {
        let mut s = nat_to_string(n / 10);
        s.push((48 + (n % 10) as u8) as char);
        s
    }
}

/// The decimal numeral of a 64-bit integer.
pub fn int_to_string(n: i64) -> (r: String)
    ensures
        r@ == signed_decimal(n as int),
{
    if n < 0 {
        let mut s = String::new();
        s.push('-');
        let m: u128 = (-(n as i128)) as u128;
        let d = nat_to_string(m);
        s.append(d.as_str());
        assert(s@ =~= signed_decimal(n as int));
        s
    } else {
        nat_to_string(n as u128)
    }
}

/// A decimal numeral with an optional plus sign, of at most `max`.
pub open spec fn parsed_nat(s: Seq<char>, max: nat) -> Option<nat> {
    let d = if s.len() > 0 && s[0] == '+' {
        s.skip(1)
    } else {
        s
    };
    if d.len() > 0 && all_digits(d) && digits_value(d) <= max {
        Some(digits_value(d))
    } else {
        None
    }
}

/// A decimal numeral with an optional sign, in the range of `i64`.
pub open spec fn parsed_i64(s: Seq<char>) -> Option<int> {
    if s.len() > 0 && s[0] == '-' {
        let d = s.skip(1);
        if d.len() > 0 && all_digits(d) && -digits_value(d) >= i64::MIN {
            Some(-(digits_value(d) as int))
        } else {
            None
        }
    } else {
        match parsed_nat(s, i64::MAX as nat) {
            Some(n) => Some(n as int),
            None => None,
        }
    }
}

fn digits_to_u64(cs: &Vec<char>, from: usize) -> (r: Option<u64>)
    requires
        from <= cs@.len(),
    ensures
        ({
            let d = cs@.skip(from as int);
            match r {
                Some(v) => d.len() > 0 && all_digits(d) && v == digits_value(d),
                None => !(d.len() > 0 && all_digits(d) && digits_value(d) <= u64::MAX),
            }
        }),
{
    let ghost d = cs@.skip(from as int);
    if from == cs.len() {
        return None;
    }
    let mut v: u64 = 0;
    let mut i: usize = from;
    assert(d.take(0).len() == 0);
    while i < cs.len()
        invariant
            d == cs@.skip(from as int),
            from <= i <= cs@.len(),
            from < cs@.len(),
            forall|k: int| 0 <= k < i - from ==> is_digit(d[k]),
            v == digits_value(d.take(i - from)),
        decreases cs@.len() - i,
    {
        let c = cs[i];
        assert(c == d[i - from]);
        if c < '0' || c > '9' {
            return None;
        }
        let x: u64 = c as u64 - 48;
        proof {
            assert(d.take(i - from + 1).drop_last() =~= d.take(i - from));
            assert(d.take(i - from + 1).last() == c);
            lemma_digits_value_grows(d, i - from + 1);
        }
        match v.checked_mul(10) {
            Some(t) => {
                match t.checked_add(x) {
                    Some(w) => {
                        v = w;
                    },
                    None => {
                        return None;
                    },
                }
            },
            None => {
                return None;
            },
        }
        i = i + 1;
    }
    assert(d.take(i - from) =~= d);
    Some(v)
}

/// `s.parse::<u64>().ok()`, with an upper bound for narrower types.
pub fn parse_nat(s: &str, max: u64) -> (r: Option<u64>)
    ensures
        match r {
            Some(v) => parsed_nat(s@, max as nat) == Some(v as nat),
            None => parsed_nat(s@, max as nat) is None,
        },
{
    let cs = chars_of(s);
    let from: usize = if cs.len() > 0 && cs[0] == '+' {
        1
    } else {
        0
    };
    assert(from == 0 ==> cs@.skip(0) =~= cs@);
    match digits_to_u64(&cs, from) {
        Some(v) => if v <= max {
            Some(v)
        } else {
            None
        },
        None => None,
    }
}

/// `s.parse::<i64>().ok()`.
pub fn parse_i64(s: &str) -> (r: Option<i64>)
    ensures
        match r {
            Some(v) => parsed_i64(s@) == Some(v as int),
            None => parsed_i64(s@) is None,
        },
{
    let cs = chars_of(s);
    if cs.len() > 0 && cs[0] == '-' {
        match digits_to_u64(&cs, 1) {
            Some(v) => {
                if v <= 9223372036854775808u64 {
                    Some((-(v as i128)) as i64)
                } else {
                    None
                }
            },
            None => None,
        }
    } else {
        match parse_nat(s, 9223372036854775807u64) {
            Some(v) => Some(v as i64),
            None => None,
        }
    }
}

// ---------------------------------------------------------------------------
// What these operations do
// ---------------------------------------------------------------------------

/// Nothing but white space.
pub open spec fn all_white(s: Seq<char>) -> bool {
    forall|i: int| 0 <= i < s.len() ==> white(#[trigger] s[i])
}

proof fn lemma_trim_front(s: Seq<char>) -> (n: int)
    ensures
        0 <= n <= s.len(),
        trim_front(s) == s.skip(n),
        all_white(s.take(n)),
        n < s.len() ==> !white(s[n]),
    decreases s.len(),
{
    if s.len() > 0 && white(s[0]) {
        let n = lemma_trim_front(s.skip(1));
        assert(s.skip(1).skip(n) =~= s.skip(n + 1));
        assert forall|i: int| 0 <= i < n + 1 implies white(#[trigger] s.take(n + 1)[i]) by {
            if i > 0 {
                assert(white(s.skip(1).take(n)[i - 1]));
            }
        }
        n + 1
    } else {
        assert(s.skip(0) =~= s);
        0
    }
}

proof fn lemma_trim_back(s: Seq<char>) -> (n: int)
    ensures
        0 <= n <= s.len(),
        trim_back(s) == s.take(n),
        all_white(s.skip(n)),
        n > 0 ==> !white(s[n - 1]),
    decreases s.len(),
{
    if s.len() > 0 && white(s.last()) {
        let n = lemma_trim_back(s.drop_last());
        assert(s.drop_last().take(n) =~= s.take(n));
        assert forall|i: int| 0 <= i < s.skip(n).len() implies white(#[trigger] s.skip(n)[i]) by {
            if i < s.len() - 1 - n {
                assert(white(s.drop_last().skip(n)[i]));
            }
        }
        n
    } else {
        assert(s.take(s.len() as int) =~= s);
        s.len() as int
    }
}

proof fn lemma_trim_front_white(w: Seq<char>, s: Seq<char>)
    requires
        all_white(w),
    ensures
        trim_front(w + s) == trim_front(s),
    decreases w.len(),
{
    if w.len() == 0 {
        assert(w + s =~= s);
    } else {
        assert(white(w[0]));
        assert((w + s)[0] == w[0]);
        assert((w + s).skip(1) =~= w.skip(1) + s);
        assert forall|i: int| 0 <= i < w.skip(1).len() implies white(#[trigger] w.skip(1)[i]) by {
            assert(white(w[i + 1]));
        }
        lemma_trim_front_white(w.skip(1), s);
    }
}

proof fn lemma_trim_back_white(s: Seq<char>, w: Seq<char>)
    requires
        all_white(w),
    ensures
        trim_back(s + w) == trim_back(s),
    decreases w.len(),
{
    if w.len() == 0 {
        assert(s + w =~= s);
    } else {
        assert(white(w.last()));
        assert((s + w).last() == w.last());
        assert((s + w).drop_last() =~= s + w.drop_last());
        assert forall|i: int| 0 <= i < w.drop_last().len() implies white(
            #[trigger] w.drop_last()[i],
        ) by {
            assert(white(w[i]));
        }
        lemma_trim_back_white(s, w.drop_last());
    }
}

/// Trimming takes away white space at both ends and nothing else: the text is white
/// space, the trimmed text and white space, and the trimmed text neither begins nor
/// ends with white space.
pub proof fn trimming_takes_white_space(s: Seq<char>)
    ensures
        exists|a: Seq<char>, b: Seq<char>|
            all_white(a) && all_white(b) && s == #[trigger] (a + trimmed(s) + b),
        trimmed(s).len() > 0 ==> !white(trimmed(s)[0]) && !white(trimmed(s).last()),
{
    let n = lemma_trim_front(s);
    let t = trim_front(s);
    let m = lemma_trim_back(t);
    let a = s.take(n);
    let b = t.skip(m);
    assert(trimmed(s) == t.take(m));
    assert(s =~= a + trimmed(s) + b);
    if trimmed(s).len() > 0 {
        assert(trimmed(s)[0] == s[n]);
        assert(trimmed(s).last() == t[m - 1]);
    }
}

/// White space around a text does not show once it is trimmed.
pub proof fn surrounding_white_space_is_lost(a: Seq<char>, s: Seq<char>, b: Seq<char>)
    requires
        all_white(a),
        all_white(b),
        s.len() > 0 ==> !white(s[0]) && !white(s.last()),
    ensures
        trimmed(a + s + b) == s,
{
    assert(a + s + b =~= a + (s + b));
    lemma_trim_front_white(a, s + b);
    if s.len() > 0 {
        assert((s + b)[0] == s[0]);
        lemma_trim_back_white(s, b);
    } else {
        assert(s + b =~= b);
        let n = lemma_trim_front(b);
        assert(n == b.len()) by {
            if n < b.len() {
                assert(white(b[n]));
            }
        }
        assert(trim_front(b) =~= s);
    }
}

/// A text is blank if it holds nothing but white space, and only then.
pub proof fn blank_texts_are_white(s: Seq<char>)
    ensures
        blank(s) <==> all_white(s),
{
    if blank(s) {
        trimming_takes_white_space(s);
        let (a, b) = choose|a: Seq<char>, b: Seq<char>|
            all_white(a) && all_white(b) && s == #[trigger] (a + trimmed(s) + b);
        assert forall|i: int| 0 <= i < s.len() implies white(#[trigger] s[i]) by {
            if i < a.len() {
                assert(white(a[i]));
                assert(s[i] == a[i]);
            } else {
                assert(white(b[i - a.len()]));
                assert(s[i] == b[i - a.len()]);
            }
        }
    }
    if all_white(s) {
        let e = Seq::<char>::empty();
        surrounding_white_space_is_lost(s, e, e);
        assert(s + e + e =~= s);
    }
}

proof fn lemma_last_pos(s: Seq<char>, c: char)
    ensures
        -1 <= last_pos(s, c) < s.len(),
        last_pos(s, c) >= 0 ==> s[last_pos(s, c)] == c,
        forall|i: int| last_pos(s, c) < i < s.len() ==> #[trigger] s[i] != c,
    decreases s.len(),
{
    if s.len() > 0 && s.last() != c {
        lemma_last_pos(s.drop_last(), c);
        assert forall|i: int| last_pos(s, c) < i < s.len() implies #[trigger] s[i] != c by {
            if i < s.len() - 1 {
                assert(s.drop_last()[i] == s[i]);
            }
        }
    }
}

/// A text is parted at the last of a character: the two parts and the character
/// between them make up the text, and the second part does not hold it. A text that
/// does not hold the character is not parted.
pub proof fn texts_are_parted_at_the_last(s: Seq<char>, c: char)
    ensures
        match split_last(s, c) {
            Some((a, b)) => s == a + seq![c] + b && !has_char(b, c),
            None => !has_char(s, c),
        },
{
    lemma_last_pos(s, c);
    let i = last_pos(s, c);
    if i >= 0 {
        assert(s =~= s.take(i) + seq![c] + s.skip(i + 1));
        assert forall|j: int| 0 <= j < s.skip(i + 1).len() implies #[trigger] s.skip(i + 1)[j]
            != c by {
            assert(s[j + i + 1] != c);
        }
    }
}

/// Copies of a character at the end are taken away, all of them, and nothing else.
pub proof fn trailing_copies_are_lost(s: Seq<char>, c: char)
    ensures
        exists|n: int|
            0 <= n <= s.len() && trim_back_char(s, c) == #[trigger] s.take(n) && (n > 0 ==> s[n - 1]
                != c) && forall|i: int| n <= i < s.len() ==> #[trigger] s[i] == c,
    decreases s.len(),
{
    if s.len() > 0 && s.last() == c {
        let t = s.drop_last();
        trailing_copies_are_lost(t, c);
        let n = choose|n: int|
            0 <= n <= t.len() && trim_back_char(t, c) == #[trigger] t.take(n) && (n > 0 ==> t[n - 1]
                != c) && forall|i: int| n <= i < t.len() ==> #[trigger] t[i] == c;
        assert(t.take(n) =~= s.take(n));
        assert forall|i: int| n <= i < s.len() implies #[trigger] s[i] == c by {
            if i < t.len() {
                assert(t[i] == s[i]);
            }
        }
    } else {
        assert(s.take(s.len() as int) =~= s);
    }
}

/// A line that ends in a line feed is a line without it and without the carriage
/// return right before it, and the rest of the text makes the rest of the lines; a
/// text without a line feed is one line, if it is not empty.
pub proof fn lines_end_at_line_feeds(a: Seq<char>, b: Seq<char>)
    requires
        !has_char(a, '\n'),
    ensures
        lines_of(a + seq!['\n'] + b) == seq![without_cr(a)] + lines_of(b),
        a.len() > 0 ==> lines_of(a) == seq![a],
        a.len() == 0 ==> lines_of(a).len() == 0,
        a.len() > 0 && a.last() == '\r' ==> without_cr(a) == a.drop_last(),
        !(a.len() > 0 && a.last() == '\r') ==> without_cr(a) == a,
{
    let s = a + seq!['\n'] + b;
    lemma_first_pos(s, '\n');
    let i = first_pos(s, '\n');
    assert(s[a.len() as int] == '\n');
    if i < a.len() {
        assert(a[i] == s[i]);
    }
    assert(i == a.len());
    assert(s.take(i) =~= a);
    assert(s.skip(i + 1) =~= b);
    lemma_first_pos(a, '\n');
}

/// Parts are joined in order: two rows of parts that are not empty are joined by
/// joining each and setting the separator between them. One part is itself.
pub proof fn parts_are_joined_in_order(a: Seq<Seq<char>>, b: Seq<Seq<char>>, sep: Seq<char>)
    requires
        a.len() > 0,
        b.len() > 0,
    ensures
        joined(a + b, sep) == joined(a, sep) + sep + joined(b, sep),
        a.len() == 1 ==> joined(a, sep) == a[0],
    decreases b.len(),
{
    let all = a + b;
    assert(all.last() == b.last());
    if b.len() == 1 {
        assert(all.drop_last() =~= a);
    } else {
        let rest = b.drop_last();
        assert(all.drop_last() =~= a + rest);
        parts_are_joined_in_order(a, rest, sep);
        assert(joined(all, sep) =~= joined(a, sep) + sep + joined(b, sep));
    }
}

/// Up to the first copy of what is replaced a text stays, the copy is replaced, and so
/// on behind it; a text without a copy stays as it is.
pub proof fn copies_are_replaced_from_the_left(
    s: Seq<char>,
    n: Seq<char>,
    with: Seq<char>,
    i: int,
)
    requires
        n.len() > 0,
        forall|j: int| 0 <= j < i ==> !occurs_at(s, n, j),
        occurs_at(s, n, i) || i == s.len(),
    ensures
        occurs_at(s, n, i) ==> replaced(s, n, with) == s.take(i) + with + replaced(
            s.skip(i + n.len()),
            n,
            with,
        ),
        i == s.len() ==> replaced(s, n, with) == s,
    decreases s.len(),
{
    if s.len() == 0 {
    } else if starts(s, n) {
        assert(s.subrange(0, n.len() as int) =~= s.take(n.len() as int));
        assert(occurs_at(s, n, 0));
        assert(i == 0);
        assert(s.take(0) + with =~= with);
    } else {
        let t = s.skip(1);
        if i == 0 {
            assert(s.subrange(0, n.len() as int) =~= s.take(n.len() as int));
        }
        assert(i > 0);
        assert forall|j: int| 0 <= j < i - 1 implies !occurs_at(t, n, j) by {
            if occurs_at(t, n, j) {
                assert(s.subrange(j + 1, j + 1 + n.len()) =~= t.subrange(j, j + n.len()));
                assert(occurs_at(s, n, j + 1));
            }
        }
        if occurs_at(s, n, i) {
            assert(t.subrange(i - 1, i - 1 + n.len()) =~= s.subrange(i, i + n.len()));
        }
        copies_are_replaced_from_the_left(t, n, with, i - 1);
        if occurs_at(s, n, i) {
            assert(t.skip(i - 1 + n.len()) =~= s.skip(i + n.len()));
            assert(replaced(s, n, with) =~= s.take(i) + with + replaced(
                s.skip(i + n.len()),
                n,
                with,
            ));
        } else {
            assert(replaced(s, n, with) =~= s);
        }
    }
}

/// A numeral is read as the number that it was written for, if that is in range.
pub proof fn numerals_are_read_back(n: nat, max: nat)
    ensures
        n <= max ==> parsed_nat(decimal(n), max) == Some(n),
        n > max ==> parsed_nat(decimal(n), max) is None,
{
    lemma_decimal(n);
}

/// An integer in range is read back from its numeral, with its sign.
pub proof fn signed_numerals_are_read_back(n: i64)
    ensures
        parsed_i64(signed_decimal(n as int)) == Some(n as int),
{
    if n < 0 {
        let d = decimal((-n) as nat);
        lemma_decimal((-n) as nat);
        assert((seq!['-'] + d).skip(1) =~= d);
    } else {
        lemma_decimal(n as nat);
    }
}

/// What is no numeral is not read: a text with a character that is no digit behind an
/// optional sign stands for no number, nor does an empty one.
pub proof fn other_texts_are_no_numerals(s: Seq<char>, i: int, max: nat)
    requires
        s.len() > 0 ==> 0 <= i < s.len() && !is_digit(s[i]) && (i > 0 || s[i] != '-' && s[i] != '+'),
    ensures
        parsed_nat(s, max) is None,
        parsed_i64(s) is None,
{
    if s.len() > 0 {
        let d = s.skip(1);
        if i > 0 {
            assert(d[i - 1] == s[i]);
        }
    }
}

/// In an ASCII text every capital becomes the small letter at the same place, and
/// everything else stays.
pub proof fn capitals_become_small(s: Seq<char>, i: int)
    requires
        ascii(s),
        0 <= i < s.len(),
    ensures
        lowered(s).len() == s.len(),
        'A' <= s[i] <= 'Z' ==> lowered(s)[i] as u32 == s[i] as u32 + 32,
        !('A' <= s[i] <= 'Z') ==> lowered(s)[i] == s[i],
        'a' <= s[i] <= 'z' ==> uppered(s)[i] as u32 == s[i] as u32 - 32,
        !('a' <= s[i] <= 'z') ==> uppered(s)[i] == s[i],
{
}

/// A text begins with another exactly if it is that text and something behind it; what is
/// behind it is what follows the prefix.
pub proof fn prefixes_are_taken_off(n: Seq<char>, rest: Seq<char>, h: Seq<char>)
    ensures
        starts(n + rest, n),
        after_prefix(n + rest, n) == Some(rest),
        match after_prefix(h, n) {
            Some(r) => h == n + r,
            None => !starts(h, n),
        },
{
    assert((n + rest).take(n.len() as int) =~= n);
    assert((n + rest).skip(n.len() as int) =~= rest);
    if starts(h, n) {
        assert(h =~= n + h.skip(n.len() as int));
    }
}

/// A text stands in another exactly if that is the text with something before and behind it.
pub proof fn texts_stand_in_texts(a: Seq<char>, n: Seq<char>, b: Seq<char>, h: Seq<char>)
    ensures
        has_text(a + n + b, n),
        has_text(h, n) ==> exists|x: Seq<char>, y: Seq<char>| h == #[trigger] (x + n + y),
{
    let s = a + n + b;
    let i = a.len() as int;
    assert(s.subrange(i, i + n.len()) =~= n);
    assert(occurs_at(s, n, i));
    if has_text(h, n) {
        let k = choose|k: int| occurs_at(h, n, k);
        let x = h.take(k);
        let y = h.skip(k + n.len());
        assert(h =~= x + n + y);
    }
}

/// Copies of a character at the start are taken away, all of them, and nothing else.
pub proof fn leading_copies_are_lost(s: Seq<char>, c: char)
    ensures
        exists|n: int|
            0 <= n <= s.len() && trim_front_char(s, c) == #[trigger] s.skip(n) && (n < s.len()
                ==> s[n] != c) && forall|i: int| 0 <= i < n ==> #[trigger] s[i] == c,
    decreases s.len(),
{
    if s.len() > 0 && s[0] == c {
        let t = s.skip(1);
        leading_copies_are_lost(t, c);
        let n = choose|n: int|
            0 <= n <= t.len() && trim_front_char(t, c) == #[trigger] t.skip(n) && (n < t.len()
                ==> t[n] != c) && forall|i: int| 0 <= i < n ==> #[trigger] t[i] == c;
        assert(t.skip(n) =~= s.skip(n + 1));
        assert forall|i: int| 0 <= i < n + 1 implies #[trigger] s[i] == c by {
            if i > 0 {
                assert(t[i - 1] == s[i]);
            }
        }
    } else {
        assert(s.skip(0) =~= s);
    }
}

} // verus!
