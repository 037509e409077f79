//! Operations on text, stated over sequences of characters.
use vstd::prelude::*;
use vstd::string::*;
use vstd::utf8::*;

verus! {

/// `String::push` puts one character behind the text.
pub assume_specification[ String::push ](s: &mut String, c: char)
    ensures
        final(s)@ == old(s)@.push(c),
;

/// Whether a character beyond ASCII is a letter or a number: what `char::is_alphanumeric` says
/// of it.
pub uninterp spec fn unicode_alphanumeric(c: char) -> bool;

/// Whether a character is a letter or a number.
pub open spec fn alphanumeric(c: char) -> bool {
    if c <= '\u{7f}' {
        'a' <= c <= 'z' || 'A' <= c <= 'Z' || '0' <= c <= '9'
    } else {
        unicode_alphanumeric(c)
    }
}

/// `char::is_alphanumeric`: whether Unicode calls the character alphabetic or numeric. Of the
/// ASCII characters that are the letters and the digits; of others the answer is read off
/// Unicode's tables and depends on the character alone.
#[verifier::external_body]
pub(crate) fn is_alphanumeric(c: char) -> (r: bool)
    ensures
        r == (if c <= '\u{7f}' {
            'a' <= c <= 'z' || 'A' <= c <= 'Z' || '0' <= c <= '9'
        } else {
            unicode_alphanumeric(c)
        }),
{
    c.is_alphanumeric()
}

/// Whether a text is made of ASCII characters.
pub open spec fn ascii(s: Seq<char>) -> bool {
    forall|i: int| 0 <= i < s.len() ==> #[trigger] s[i] <= '\u{7f}'
}

/// An ASCII character in lower case.
pub open spec fn ascii_lowercase(c: char) -> char {
    if 'A' <= c <= 'Z' {
        (c as u32 + 32) as char
    } else {
        c
    }
}

/// A text that is not all ASCII in lower case: what `str::to_lowercase` makes of it.
pub uninterp spec fn unicode_lowercase(s: Seq<char>) -> Seq<char>;

/// A text in lower case.
pub open spec fn lowercase(s: Seq<char>) -> Seq<char> {
    if ascii(s) {
        s.map_values(|c: char| ascii_lowercase(c))
    } else {
        unicode_lowercase(s)
    }
}

/// `str::to_lowercase`: the text with Unicode's lower case mapping applied. In an ASCII text
/// that changes the letters from `A` to `Z` alone; what becomes of another text depends on the
/// text alone.
#[verifier::external_body]
pub(crate) fn to_lowercase(s: &str) -> (r: String)
    ensures
        r@ == (if ascii(s@) {
            s@.map_values(|c: char| ascii_lowercase(c))
        } else {
            unicode_lowercase(s@)
        }),
{
    s.to_lowercase()
}

/// A character beyond ASCII in lower case: what `char::to_lowercase` makes of it.
pub uninterp spec fn unicode_char_lowercase(c: char) -> Seq<char>;

/// A character in lower case.
pub open spec fn char_lowercase(c: char) -> Seq<char> {
    if c <= '\u{7f}' {
        seq![ascii_lowercase(c)]
    } else {
        unicode_char_lowercase(c)
    }
}

/// `char::to_lowercase`: the one or more characters that Unicode maps the character to. Of the
/// ASCII characters the letters from `A` to `Z` alone are mapped to another; what becomes of
/// other characters depends on the character alone.
#[verifier::external_body]
pub(crate) fn char_to_lowercase(c: char) -> (r: String)
    ensures
        r@ == (if c <= '\u{7f}' {
            seq![ascii_lowercase(c)]
        } else {
            unicode_char_lowercase(c)
        }),
{
    c.to_lowercase().to_string()
}

/// The text that bytes hold: what `String::from_utf8_lossy` makes of them.
pub uninterp spec fn lossy_text(bytes: Seq<u8>) -> Seq<char>;

/// `String::from_utf8_lossy`: bytes that are UTF-8 give the text that they encode; in others
/// what is not UTF-8 is replaced, in a way that depends on the bytes alone.
#[verifier::external_body]
pub(crate) fn from_utf8_lossy(bytes: &[u8]) -> (r: String)
    ensures
        r@ == lossy_text(bytes@),
        valid_utf8(bytes@) ==> encode_utf8(r@) == bytes@,
{
    String::from_utf8_lossy(bytes).into_owned()
}

/// The texts that a list of strings holds.
pub open spec fn views(list: Seq<String>) -> Seq<Seq<char>> {
    list.map_values(|s: String| s@)
}

/// One more string gives one more text.
pub broadcast proof fn lemma_views_push(list: Seq<String>, s: String)
    ensures
        #[trigger] views(list.push(s)) == views(list).push(s@),
{
    assert(views(list.push(s)) =~= views(list).push(s@));
}

/// The text of an optional string.
pub open spec fn view_opt(s: Option<String>) -> Option<Seq<char>> {
    match s {
        Some(s) => Some(s@),
        None => None,
    }
}

/// A copy of a list of strings.
pub fn clone_texts(list: &Vec<String>) -> (r: Vec<String>)
    ensures
        r@ == list@,
{
    let mut r: Vec<String> = Vec::new();
    let mut i: usize = 0;
    while i < list.len()
        invariant
            i <= list@.len(),
            r@ =~= list@.take(i as int),
        decreases list@.len() - i,
    {
        r.push(list[i].clone());
        i = i + 1;
    }
    assert(r@ =~= list@);
    r
}

/// Adds strings to a list.
pub fn push_texts(list: &mut Vec<String>, more: &Vec<String>)
    ensures
        views(final(list)@) == views(old(list)@) + views(more@),
{
    let ghost first = views(list@);
    let ghost all = views(more@);
    let mut i: usize = 0;
    assert(views(list@) =~= first + all.take(0));
    while i < more.len()
        invariant
            i <= more@.len(),
            all == views(more@),
            views(list@) =~= first + all.take(i as int),
        decreases more@.len() - i,
    {
        assert(all[i as int] == more@[i as int]@);
        let ghost before = list@;
        list.push(more[i].clone());
        assert(views(list@) =~= views(before).push(more@[i as int]@));
        i = i + 1;
    }
    assert(all.take(i as int) =~= all);
}

/// The characters of a string.
pub fn chars_of(s: &str) -> (v: Vec<char>)
    ensures
        v@ == s@,
{
    let mut v: Vec<char> = Vec::new();
    for c in it: s.chars()
        invariant
            it.seq() == s@,
            v@ == s@.take(it.index()),
    {
        v.push(c);
    }
    assert(v@ =~= s@);
    v
}

/// The characters from `from` up to `to`, as a string.
pub fn string_range(v: &Vec<char>, from: usize, to: usize) -> (s: String)
    requires
        from <= to <= v@.len(),
    ensures
        s@ == v@.subrange(from as int, to as int),
{
    let mut s = String::new();
    let mut i: usize = from;
    while i < to
        invariant
            from <= i <= to <= v@.len(),
            s@ =~= v@.subrange(from as int, i as int),
        decreases to - i,
    {
        s.push(v[i]);
        i = i + 1;
    }
    s
}

/// Whether two texts are the same.
pub fn same(a: &str, b: &str) -> (r: bool)
    ensures
        r == (a@ == b@),
{
    a.to_owned() == b.to_owned()
}

/// One text behind another.
pub fn concat(a: &str, b: &str) -> (r: String)
    ensures
        r@ == a@ + b@,
{
    let mut r = a.to_owned();
    r.append(b);
    r
}


/// The characters with the Unicode property `White_Space`.
pub open spec fn is_space(c: char) -> bool {
    ||| '\u{9}' <= c <= '\u{d}'
    ||| c == ' '
    ||| c == '\u{85}'
    ||| c == '\u{a0}'
    ||| c == '\u{1680}'
    ||| '\u{2000}' <= c <= '\u{200a}'
    ||| c == '\u{2028}'
    ||| c == '\u{2029}'
    ||| c == '\u{202f}'
    ||| c == '\u{205f}'
    ||| c == '\u{3000}'
}

/// Sets of characters that texts are trimmed of or cut at.
#[derive(Clone, Copy, PartialEq, Eq, Structural)]
pub enum CharClass {
    /// White space.
    Space,
    /// Single and double quotes.
    Quote,
    /// Everything but letters and numbers.
    NotAlphanumeric,
    /// One character.
    Is(char),
}

impl CharClass {
    /// Whether a character belongs to the class.
    pub open spec fn has(self, c: char) -> bool {
        match self {
            CharClass::Space => is_space(c),
            CharClass::Quote => c == '\'' || c == '"',
            CharClass::NotAlphanumeric => !alphanumeric(c),
            CharClass::Is(x) => c == x,
        }
    }

    /// Tells whether a character belongs to the class.
    pub fn admits(self, c: char) -> (r: bool)
        ensures
            r == self.has(c),
    {
        match self {
            CharClass::Space => ('\u{9}' <= c && c <= '\u{d}') || c == ' ' || c == '\u{85}' || c
                == '\u{a0}' || c == '\u{1680}' || ('\u{2000}' <= c && c <= '\u{200a}') || c
                == '\u{2028}' || c == '\u{2029}' || c == '\u{202f}' || c == '\u{205f}' || c
                == '\u{3000}',
            CharClass::Quote => c == '\'' || c == '"',
            CharClass::NotAlphanumeric => !is_alphanumeric(c),
            CharClass::Is(x) => c == x,
        }
    }
}

/// A text without the characters of a class at its start.
pub open spec fn trim_start_of(s: Seq<char>, class: CharClass) -> Seq<char>
    decreases s.len(),
{
    if s.len() > 0 && class.has(s[0]) {
        trim_start_of(s.skip(1), class)
    } else {
        s
    }
}

/// A text without the characters of a class at its end.
pub open spec fn trim_end_of(s: Seq<char>, class: CharClass) -> Seq<char>
    decreases s.len(),
{
    if s.len() > 0 && class.has(s.last()) {
        trim_end_of(s.drop_last(), class)
    } else {
        s
    }
}

/// A text without the characters of a class at either end.
pub open spec fn trim_of(s: Seq<char>, class: CharClass) -> Seq<char> {
    trim_end_of(trim_start_of(s, class), class)
}

/// A text without white space at either end.
pub open spec fn trimmed(s: Seq<char>) -> Seq<char> {
    trim_of(s, CharClass::Space)
}

fn start_after(v: &Vec<char>, class: CharClass) -> (i: usize)
    ensures
        i <= v@.len(),
        v@.skip(i as int) == trim_start_of(v@, class),
{
    let mut i: usize = 0;
    assert(v@.skip(0) =~= v@);
    while i < v.len() && class.admits(v[i])
        invariant
            i <= v@.len(),
            trim_start_of(v@, class) == trim_start_of(v@.skip(i as int), class),
        decreases v@.len() - i,
    {
        assert(v@.skip(i as int).skip(1) =~= v@.skip(i + 1));
        i = i + 1;
    }
    i
}

fn end_before(v: &Vec<char>, from: usize, class: CharClass) -> (j: usize)
    requires
        from <= v@.len(),
    ensures
        from <= j <= v@.len(),
        v@.subrange(from as int, j as int) == trim_end_of(v@.skip(from as int), class),
{
    let mut j: usize = v.len();
    assert(v@.subrange(from as int, j as int) =~= v@.skip(from as int));
    while j > from && class.admits(v[j - 1])
        invariant
            from <= j <= v@.len(),
            trim_end_of(v@.skip(from as int), class) == trim_end_of(
                v@.subrange(from as int, j as int),
                class,
            ),
        decreases j,
    {
        assert(v@.subrange(from as int, j as int).drop_last() =~= v@.subrange(
            from as int,
            j - 1,
        ));
        j = j - 1;
    }
    j
}

/// Removes the characters of a class from the start of a text.
pub fn trim_start_matches(s: &str, class: CharClass) -> (r: String)
    ensures
        r@ == trim_start_of(s@, class),
{
    let v = chars_of(s);
    let i = start_after(&v, class);
    string_range(&v, i, v.len())
}

/// Removes the characters of a class from the end of a text.
pub fn trim_end_matches(s: &str, class: CharClass) -> (r: String)
    ensures
        r@ == trim_end_of(s@, class),
{
    let v = chars_of(s);
    let j = end_before(&v, 0, class);
    assert(v@.skip(0) =~= v@);
    string_range(&v, 0, j)
}

/// Removes the characters of a class from both ends of a text.
pub fn trim_matches(s: &str, class: CharClass) -> (r: String)
    ensures
        r@ == trim_of(s@, class),
{
    let v = chars_of(s);
    let i = start_after(&v, class);
    let j = end_before(&v, i, class);
    string_range(&v, i, j)
}

/// Removes the white space at both ends of a text.
pub fn trim(s: &str) -> (r: String)
    ensures
        r@ == trimmed(s@),
{
    trim_matches(s, CharClass::Space)
}

/// Whether `p` stands at position `i` of `s`.
pub open spec fn occurs_at(s: Seq<char>, p: Seq<char>, i: int) -> bool {
    0 <= i && i + p.len() <= s.len() && s.subrange(i, i + p.len()) == p
}

/// Whether a text begins with another.
pub open spec fn begins_with(s: Seq<char>, p: Seq<char>) -> bool {
    occurs_at(s, p, 0)
}

/// Whether a text finishes with another.
pub open spec fn finishes_with(s: Seq<char>, p: Seq<char>) -> bool {
    occurs_at(s, p, s.len() - p.len())
}

/// Whether a text holds another.
pub open spec fn holds_text(s: Seq<char>, p: Seq<char>) -> bool {
    exists|i: int| occurs_at(s, p, i)
}

/// The first position of `p` in `s` from position `from` on.
pub open spec fn first_from(s: Seq<char>, p: Seq<char>, from: int) -> Option<int>
    decreases s.len() + 1 - from,
{
    if from < 0 || from > s.len() {
        None
    } else if occurs_at(s, p, from) {
        Some(from)
    } else {
        first_from(s, p, from + 1)
    }
}

/// The first position of one text in another.
pub open spec fn first_at(s: Seq<char>, p: Seq<char>) -> Option<int> {
    first_from(s, p, 0)
}

/// The last position of `p` in `s` that is at most `upto`.
pub open spec fn last_upto(s: Seq<char>, p: Seq<char>, upto: int) -> Option<int>
    decreases upto + 1,
{
    if upto < 0 {
        None
    } else if occurs_at(s, p, upto) {
        Some(upto)
    } else {
        last_upto(s, p, upto - 1)
    }
}

/// The last position of one text in another.
pub open spec fn last_at(s: Seq<char>, p: Seq<char>) -> Option<int> {
    last_upto(s, p, s.len() as int)
}

/// What stands before and behind the first `p`.
pub open spec fn cut_first(s: Seq<char>, p: Seq<char>) -> Option<(Seq<char>, Seq<char>)> {
    match first_at(s, p) {
        Some(i) => Some((s.take(i), s.skip(i + p.len()))),
        None => None,
    }
}

/// What stands before and behind the last `p`.
pub open spec fn cut_last(s: Seq<char>, p: Seq<char>) -> Option<(Seq<char>, Seq<char>)> {
    match last_at(s, p) {
        Some(i) => Some((s.take(i), s.skip(i + p.len()))),
        None => None,
    }
}

/// A position that is found is the first one.
pub proof fn lemma_first_from(s: Seq<char>, p: Seq<char>, from: int)
    requires
        0 <= from,
    ensures
        match first_from(s, p, from) {
            Some(i) => from <= i && occurs_at(s, p, i) && (forall|j: int|
                from <= j < i ==> !occurs_at(s, p, j)),
            None => forall|j: int| from <= j ==> !occurs_at(s, p, j),
        },
    decreases s.len() + 1 - from,
{
    if from <= s.len() && !occurs_at(s, p, from) {
        lemma_first_from(s, p, from + 1);
    }
}

/// A position that is found from the end is the last one.
pub proof fn lemma_last_upto(s: Seq<char>, p: Seq<char>, upto: int)
    ensures
        match last_upto(s, p, upto) {
            Some(i) => 0 <= i <= upto && occurs_at(s, p, i) && (forall|j: int|
                i < j <= upto ==> !occurs_at(s, p, j)),
            None => forall|j: int| j <= upto ==> !occurs_at(s, p, j),
        },
    decreases upto + 1,
{
    if upto >= 0 && !occurs_at(s, p, upto) {
        lemma_last_upto(s, p, upto - 1);
    }
}

fn occurs(v: &Vec<char>, p: &Vec<char>, at: usize) -> (r: bool)
    requires
        at <= v@.len(),
    ensures
        r == occurs_at(v@, p@, at as int),
{
    if v.len() - at < p.len() {
        return false;
    }
    let mut k: usize = 0;
    while k < p.len()
        invariant
            at + p.len() <= v.len(),
            k <= p.len(),
            forall|j: int| 0 <= j < k ==> v@[at + j] == p@[j],
        decreases p@.len() - k,
    {
        if v[at + k] != p[k] {
            assert(v@.subrange(at as int, at + p@.len())[k as int] != p@[k as int]);
            return false;
        }
        k = k + 1;
    }
    assert(v@.subrange(at as int, at + p@.len()) =~= p@);
    true
}

fn find_chars(v: &Vec<char>, p: &Vec<char>, from: usize) -> (r: Option<usize>)
    requires
        from <= v@.len(),
    ensures
        match r {
            Some(i) => first_from(v@, p@, from as int) == Some(i as int) && i + p@.len()
                <= v.len() && from <= i,
            None => first_from(v@, p@, from as int) is None,
        },
{
    let mut i: usize = from;
    while i <= v.len()
        invariant
            from <= i <= v@.len() + 1,
            first_from(v@, p@, from as int) == first_from(v@, p@, i as int),
        decreases v@.len() + 1 - i,
    {
        if occurs(v, p, i) {
            return Some(i);
        }
        if i == v.len() {
            assert(first_from(v@, p@, i + 1) is None);
            return None;
        }
        i = i + 1;
    }
    None
}

/// Whether a text begins with another.
pub fn starts_with(s: &str, p: &str) -> (r: bool)
    ensures
        r == begins_with(s@, p@),
{
    occurs(&chars_of(s), &chars_of(p), 0)
}

/// Whether a text finishes with another.
pub fn ends_with(s: &str, p: &str) -> (r: bool)
    ensures
        r == finishes_with(s@, p@),
{
    let v = chars_of(s);
    let q = chars_of(p);
    if q.len() > v.len() {
        return false;
    }
    occurs(&v, &q, v.len() - q.len())
}

/// Whether a text holds another.
pub fn contains(s: &str, p: &str) -> (r: bool)
    ensures
        r == holds_text(s@, p@),
{
    proof {
        lemma_first_from(s@, p@, 0);
    }
    find_chars(&chars_of(s), &chars_of(p), 0).is_some()
}

/// What follows a prefix.
pub fn strip_prefix(s: &str, p: &str) -> (r: Option<String>)
    ensures
        view_opt(r) == (if begins_with(s@, p@) {
            Some(s@.skip(p@.len() as int))
        } else {
            None
        }),
{
    let v = chars_of(s);
    let q = chars_of(p);
    if occurs(&v, &q, 0) {
        let rest = string_range(&v, q.len(), v.len());
        assert(rest@ =~= s@.skip(p@.len() as int));
        Some(rest)
    } else {
        None
    }
}

/// What stands before and behind the first occurrence of `p`.
pub fn split_once(s: &str, p: &str) -> (r: Option<(String, String)>)
    ensures
        match r {
            Some(parts) => cut_first(s@, p@) == Some((parts.0@, parts.1@)),
            None => cut_first(s@, p@) is None,
        },
{
    let v = chars_of(s);
    let q = chars_of(p);
    match find_chars(&v, &q, 0) {
        Some(i) => {
            let before = string_range(&v, 0, i);
            let behind = string_range(&v, i + q.len(), v.len());
            assert(before@ =~= s@.take(i as int));
            assert(behind@ =~= s@.skip(i + p@.len()));
            Some((before, behind))
        },
        None => None,
    }
}

/// What stands before and behind the last occurrence of `p`.
pub fn rsplit_once(s: &str, p: &str) -> (r: Option<(String, String)>)
    ensures
        match r {
            Some(parts) => cut_last(s@, p@) == Some((parts.0@, parts.1@)),
            None => cut_last(s@, p@) is None,
        },
{
    let v = chars_of(s);
    let q = chars_of(p);
    let mut i: usize = v.len();
    loop
        invariant
            v@ == s@,
            q@ == p@,
            i <= v@.len(),
            last_at(s@, p@) == last_upto(s@, p@, i as int),
        decreases i,
    {
        if occurs(&v, &q, i) {
            assert(i + q.len() <= v.len());
            let before = string_range(&v, 0, i);
            let behind = string_range(&v, i + q.len(), v.len());
            assert(before@ =~= s@.take(i as int));
            assert(behind@ =~= s@.skip(i + p@.len()));
            return Some((before, behind));
        }
        if i == 0 {
            assert(last_upto(s@, p@, -1) is None);
            return None;
        }
        i = i - 1;
    }
}


/// The first position from `from` on whose character belongs to the class, or the length.
pub open spec fn class_from(s: Seq<char>, class: CharClass, from: int) -> int
    decreases s.len() - from,
{
    if from >= s.len() {
        s.len() as int
    } else if class.has(s[from]) {
        from
    } else {
        class_from(s, class, from + 1)
    }
}

/// What [`class_from`] finds.
pub proof fn lemma_class_from(s: Seq<char>, class: CharClass, from: int)
    requires
        0 <= from <= s.len(),
    ensures
        from <= class_from(s, class, from) <= s.len(),
        class_from(s, class, from) < s.len() ==> class.has(s[class_from(s, class, from)]),
        forall|j: int| from <= j < class_from(s, class, from) ==> !class.has(#[trigger] s[j]),
    decreases s.len() - from,
{
    if from < s.len() && !class.has(s[from]) {
        lemma_class_from(s, class, from + 1);
    }
}

proof fn lemma_class_skip(s: Seq<char>, class: CharClass, k: int, from: int)
    requires
        0 <= k <= s.len(),
        0 <= from <= s.len() - k,
    ensures
        class_from(s.skip(k), class, from) + k == class_from(s, class, k + from),
    decreases s.len() - k - from,
{
    if from < s.len() - k && !class.has(s[k + from]) {
        lemma_class_skip(s, class, k, from + 1);
    }
}

fn class_index(v: &Vec<char>, class: CharClass, from: usize) -> (i: usize)
    requires
        from <= v@.len(),
    ensures
        i == class_from(v@, class, from as int),
        from <= i <= v.len(),
        i < v.len() ==> class.has(v@[i as int]),
{
    let mut i: usize = from;
    while i < v.len() && !class.admits(v[i])
        invariant
            from <= i <= v@.len(),
            class_from(v@, class, from as int) == class_from(v@, class, i as int),
        decreases v@.len() - i,
    {
        i = i + 1;
    }
    i
}

/// What stands before and behind the first character of a class.
pub open spec fn cut_class(s: Seq<char>, class: CharClass) -> Option<(Seq<char>, Seq<char>)> {
    let i = class_from(s, class, 0);
    if i < s.len() {
        Some((s.take(i), s.skip(i + 1)))
    } else {
        None
    }
}

/// Cuts a text at its first character of a class.
pub fn split_once_class(s: &str, class: CharClass) -> (r: Option<(String, String)>)
    ensures
        match r {
            Some(parts) => cut_class(s@, class) == Some((parts.0@, parts.1@)),
            None => cut_class(s@, class) is None,
        },
{
    let v = chars_of(s);
    let i = class_index(&v, class, 0);
    if i < v.len() {
        let before = string_range(&v, 0, i);
        let behind = string_range(&v, i + 1, v.len());
        assert(before@ =~= s@.take(i as int));
        assert(behind@ =~= s@.skip(i + 1));
        Some((before, behind))
    } else {
        None
    }
}

/// The pieces between the characters of a class.
pub open spec fn pieces(s: Seq<char>, class: CharClass) -> Seq<Seq<char>>
    decreases s.len(),
    via pieces_decreases
{
    let i = class_from(s, class, 0);
    if i < s.len() {
        seq![s.take(i)] + pieces(s.skip(i + 1), class)
    } else {
        seq![s]
    }
}

#[via_fn]
proof fn pieces_decreases(s: Seq<char>, class: CharClass) {
    lemma_class_from(s, class, 0);
}

/// Splits a text at the characters of a class.
pub fn split(s: &str, class: CharClass) -> (r: Vec<String>)
    ensures
        views(r@) == pieces(s@, class),
{
    let v = chars_of(s);
    let mut r: Vec<String> = Vec::new();
    let mut start: usize = 0;
    assert(s@.skip(0) =~= s@);
    assert(views(r@) + pieces(s@, class) =~= pieces(s@, class));
    loop
        invariant
            v@ == s@,
            start <= v@.len(),
            views(r@) + pieces(s@.skip(start as int), class) == pieces(s@, class),
        decreases v@.len() - start,
    {
        let i = class_index(&v, class, start);
        let ghost rest = s@.skip(start as int);
        let ghost done = views(r@);
        proof {
            lemma_class_skip(s@, class, start as int, 0);
            lemma_class_from(rest, class, 0);
        }
        let piece = string_range(&v, start, i);
        assert(piece@ =~= rest.take(i - start));
        if i < v.len() {
            assert(rest.skip(i - start + 1) =~= s@.skip(i + 1));
            r.push(piece);
            assert(views(r@) =~= done.push(piece@));
            assert(views(r@) + pieces(s@.skip(i + 1), class) =~= done + (seq![piece@] + pieces(
                s@.skip(i + 1),
                class,
            )));
            start = i + 1;
        } else {
            assert(rest.take(i - start) =~= rest);
            r.push(piece);
            assert(views(r@) =~= done + seq![piece@]);
            return r;
        }
    }
}

/// A line without the carriage return at its end.
pub open spec fn without_return(s: Seq<char>) -> Seq<char> {
    if s.len() > 0 && s.last() == '\r' {
        s.drop_last()
    } else {
        s
    }
}

/// The lines of a text: they end in a line feed or in a carriage return and a line feed,
/// and the last line end is optional.
pub open spec fn lines_of(s: Seq<char>) -> Seq<Seq<char>>
    decreases s.len(),
    via lines_decreases
{
    let i = class_from(s, CharClass::Is('\n'), 0);
    if s.len() == 0 {
        Seq::empty()
    } else if i < s.len() {
        seq![without_return(s.take(i))] + lines_of(s.skip(i + 1))
    } else {
        seq![s]
    }
}

#[via_fn]
proof fn lines_decreases(s: Seq<char>) {
    lemma_class_from(s, CharClass::Is('\n'), 0);
}

/// Splits a text into its lines.
pub fn lines(s: &str) -> (r: Vec<String>)
    ensures
        views(r@) == lines_of(s@),
{
    let v = chars_of(s);
    let mut r: Vec<String> = Vec::new();
    let mut start: usize = 0;
    let class = CharClass::Is('\n');
    assert(s@.skip(0) =~= s@);
    assert(views(r@) + lines_of(s@) =~= lines_of(s@));
    while start < v.len()
        invariant
            v@ == s@,
            class == CharClass::Is('\n'),
            start <= v@.len(),
            views(r@) + lines_of(s@.skip(start as int)) == lines_of(s@),
        decreases v@.len() - start,
    {
        let i = class_index(&v, class, start);
        let ghost rest = s@.skip(start as int);
        let ghost done = views(r@);
        proof {
            lemma_class_skip(s@, class, start as int, 0);
            lemma_class_from(rest, class, 0);
        }
        if i < v.len() {
            let end: usize = if i > start && v[i - 1] == '\r' {
                i - 1
            } else {
                i
            };
            let line = string_range(&v, start, end);
            assert(line@ =~= without_return(rest.take(i - start)));
            assert(rest.skip(i - start + 1) =~= s@.skip(i + 1));
            r.push(line);
            assert(views(r@) =~= done.push(line@));
            assert(views(r@) + lines_of(s@.skip(i + 1)) =~= done + (seq![line@] + lines_of(
                s@.skip(i + 1),
            )));
            start = i + 1;
        } else {
            let line = string_range(&v, start, i);
            assert(line@ =~= rest);
            r.push(line);
            assert(views(r@) =~= done + seq![line@]);
            assert(s@.skip(i as int) =~= Seq::empty());
            assert(views(r@) + lines_of(s@.skip(i as int)) =~= lines_of(s@));
            start = i;
        }
    }
    assert(s@.skip(start as int) =~= Seq::empty());
    assert(views(r@) =~= lines_of(s@));
    r
}

/// The words of a text: what stands between white space.
pub open spec fn words_of(s: Seq<char>) -> Seq<Seq<char>>
    decreases s.len(),
    via words_decreases
{
    let t = trim_start_of(s, CharClass::Space);
    let i = class_from(t, CharClass::Space, 0);
    if t.len() == 0 {
        Seq::empty()
    } else {
        seq![t.take(i)] + words_of(t.skip(i))
    }
}

/// What is left of a text whose start is trimmed.
pub proof fn lemma_trim_start(s: Seq<char>, class: CharClass)
    ensures
        trim_start_of(s, class).len() <= s.len(),
        trim_start_of(s, class).len() > 0 ==> !class.has(trim_start_of(s, class)[0]),
    decreases s.len(),
{
    if s.len() > 0 && class.has(s[0]) {
        lemma_trim_start(s.skip(1), class);
    }
}

#[via_fn]
proof fn words_decreases(s: Seq<char>) {
    lemma_trim_start(s, CharClass::Space);
    let t = trim_start_of(s, CharClass::Space);
    lemma_class_from(t, CharClass::Space, 0);
}

/// A text that does not start with a character of a class is not all trimmed off its end.
pub proof fn lemma_trim_end_stays(s: Seq<char>, class: CharClass)
    requires
        s.len() > 0,
        !class.has(s[0]),
    ensures
        trim_end_of(s, class).len() > 0,
    decreases s.len(),
{
    if class.has(s.last()) {
        lemma_trim_end_stays(s.drop_last(), class);
    }
}

proof fn lemma_trim_end_front(s: Seq<char>, class: CharClass)
    ensures
        trim_end_of(s, class).len() > 0 ==> trim_end_of(s, class)[0] == s[0],
    decreases s.len(),
{
    if s.len() > 0 && class.has(s.last()) {
        lemma_trim_end_front(s.drop_last(), class);
    }
}

/// A text that is left when blanks around it are taken off has words.
pub proof fn lemma_trimmed_words(s: Seq<char>)
    ensures
        trimmed(s).len() > 0 ==> words_of(trimmed(s)).len() > 0,
{
    let front = trim_start_of(s, CharClass::Space);
    let t = trimmed(s);
    lemma_trim_start(s, CharClass::Space);
    lemma_trim_end_front(front, CharClass::Space);
    if t.len() > 0 {
        if front.len() == 0 {
            assert(trim_end_of(front, CharClass::Space).len() == 0);
        }
        assert(trim_start_of(t, CharClass::Space) == t);
    }
}

/// Splits a text into its words.
pub fn split_whitespace(s: &str) -> (r: Vec<String>)
    ensures
        views(r@) == words_of(s@),
{
    let class = CharClass::Space;
    let mut r: Vec<String> = Vec::new();
    let mut rest = s.to_owned();
    assert(views(r@) + words_of(s@) =~= words_of(s@));
    loop
        invariant
            class == CharClass::Space,
            views(r@) + words_of(rest@) == words_of(s@),
        decreases rest@.len(),
    {
        let ghost done = views(r@);
        let t = trim_start_matches(rest.as_str(), class);
        proof {
            lemma_trim_start(rest@, class);
            lemma_class_from(t@, class, 0);
        }
        let v = chars_of(t.as_str());
        if v.len() == 0 {
            assert(views(r@) =~= words_of(s@));
            return r;
        }
        let i = class_index(&v, class, 0);
        let word = string_range(&v, 0, i);
        let behind = string_range(&v, i, v.len());
        assert(word@ =~= t@.take(i as int));
        assert(behind@ =~= t@.skip(i as int));
        r.push(word);
        assert(views(r@) =~= done.push(word@));
        assert(views(r@) + words_of(behind@) =~= done + (seq![word@] + words_of(behind@)));
        rest = behind;
    }
}

/// Texts with a separator between each two.
pub open spec fn joined(list: Seq<Seq<char>>, sep: Seq<char>) -> Seq<char>
    decreases list.len(),
{
    if list.len() == 0 {
        Seq::empty()
    } else if list.len() == 1 {
        list[0]
    } else {
        joined(list.drop_last(), sep) + sep + list.last()
    }
}

/// Joins texts, with a separator between each two.
pub fn join(list: &Vec<String>, sep: &str) -> (r: String)
    ensures
        r@ == joined(views(list@), sep@),
{
    let mut r = String::new();
    let mut i: usize = 0;
    let ghost all = views(list@);
    while i < list.len()
        invariant
            i <= list@.len(),
            all == views(list@),
            r@ == joined(all.take(i as int), sep@),
        decreases list@.len() - i,
    {
        if i > 0 {
            r.append(sep);
        }
        r.append(list[i].as_str());
        assert(all.take(i + 1).drop_last() =~= all.take(i as int));
        assert(all.take(i + 1).last() == list@[i as int]@);
        assert(i == 0 ==> r@ =~= list@[0]@);
        i = i + 1;
    }
    assert(all.take(i as int) =~= all);
    r
}


/// The value of a decimal digit.
pub open spec fn digit_value(c: char) -> nat {
    (c as u32 - '0' as u32) as nat
}

/// Whether a character is a decimal digit of ASCII.
pub open spec fn is_digit(c: char) -> bool {
    '0' <= c <= '9'
}

/// Whether a text is made of decimal digits.
pub open spec fn all_digits(s: Seq<char>) -> bool {
    forall|i: int| 0 <= i < s.len() ==> is_digit(#[trigger] s[i])
}

/// The digit of a value below ten.
pub open spec fn digit_char(d: nat) -> char {
    ('0' as u32 + d) as char
}

/// A number in decimal digits.
pub open spec fn decimal(n: nat) -> Seq<char>
    decreases n,
{
    if n < 10 {
        seq![digit_char(n)]
    } else {
        decimal(n / 10).push(digit_char(n % 10))
    }
}

/// A number in decimal digits, with a minus sign where it is negative.
pub open spec fn decimal_int(n: int) -> Seq<char> {
    if n < 0 {
        "-"@ + decimal((-n) as nat)
    } else {
        decimal(n as nat)
    }
}

fn digit_of(d: u64) -> (c: char)
    requires
        d < 10,
    ensures
        c == digit_char(d as nat),
{
    match d {
        0 => '0',
        1 => '1',
        2 => '2',
        3 => '3',
        4 => '4',
        5 => '5',
        6 => '6',
        7 => '7',
        8 => '8',
        _ => '9',
    }
}

/// Writes a number in decimal digits.
pub fn large_number_text(n: u128) -> (r: String)
    ensures
        r@ == decimal(n as nat),
    decreases n,
{
    let mut r = if n < 10 {
        String::new()
    } else {
        large_number_text(n / 10)
    };
    r.push(digit_of((n % 10) as u64));
    assert(n < 10 ==> r@ =~= decimal(n as nat));
    r
}

/// Writes a number in decimal digits.
pub fn number_text(n: u64) -> (r: String)
    ensures
        r@ == decimal(n as nat),
{
    large_number_text(n as u128)
}

/// Writes a signed number in decimal digits.
pub fn signed_text(n: i64) -> (r: String)
    ensures
        r@ == decimal_int(n as int),
{
    if n < 0 {
        let magnitude: u64 = if n == i64::MIN {
            0x8000_0000_0000_0000
        } else {
            (-n) as u64
        };
        concat("-", number_text(magnitude).as_str())
    } else {
        number_text(n as u64)
    }
}

/// The number that decimal digits write.
pub open spec fn digits_value(s: Seq<char>) -> nat
    decreases s.len(),
{
    if s.len() == 0 {
        0
    } else {
        digits_value(s.drop_last()) * 10 + digit_value(s.last())
    }
}

/// A number in decimal digits is made of digits, and they write the number.
pub proof fn lemma_decimal(n: nat)
    ensures
        decimal(n).len() > 0,
        all_digits(decimal(n)),
        digits_value(decimal(n)) == n,
    decreases n,
{
    reveal_with_fuel(digits_value, 2);
    if n >= 10 {
        lemma_decimal(n / 10);
        assert(decimal(n).drop_last() =~= decimal(n / 10));
    } else {
        assert(decimal(n).drop_last() =~= Seq::<char>::empty());
    }
}

/// The number that a text of decimal digits writes, where there is one and it is at most `max`.
pub open spec fn read_digits(s: Seq<char>, max: nat) -> Option<nat> {
    if s.len() > 0 && all_digits(s) && digits_value(s) <= max {
        Some(digits_value(s))
    } else {
        None
    }
}

/// How a text reads as an unsigned number: digits, with an optional plus sign before them.
pub open spec fn read_unsigned(s: Seq<char>, max: nat) -> Option<nat> {
    if s.len() > 0 && s[0] == '+' {
        read_digits(s.skip(1), max)
    } else {
        read_digits(s, max)
    }
}

/// How a text reads as a signed number from `-max - 1` to `max`.
pub open spec fn read_signed(s: Seq<char>, max: nat) -> Option<int> {
    if s.len() > 0 && s[0] == '-' {
        match read_digits(s.skip(1), max + 1) {
            Some(n) => Some(-(n as int)),
            None => None,
        }
    } else {
        match read_unsigned(s, max) {
            Some(n) => Some(n as int),
            None => None,
        }
    }
}

proof fn lemma_digits_grow(s: Seq<char>, i: int)
    requires
        0 <= i <= s.len(),
    ensures
        digits_value(s.take(i)) <= digits_value(s),
    decreases s.len() - i,
{
    if i < s.len() {
        lemma_digits_grow(s, i + 1);
        assert(s.take(i + 1).drop_last() =~= s.take(i));
    } else {
        assert(s.take(i) =~= s);
    }
}

fn digits_from(v: &Vec<char>, from: usize, max: u64) -> (r: Option<u64>)
    requires
        from <= v@.len(),
    ensures
        match r {
            Some(n) => read_digits(v@.skip(from as int), max as nat) == Some(n as nat),
            None => read_digits(v@.skip(from as int), max as nat) is None,
        },
{
    let ghost s = v@.skip(from as int);
    if from == v.len() {
        return None;
    }
    let mut i: usize = from;
    let mut n: u64 = 0;
    assert(s.take(0) =~= Seq::empty());
    while i < v.len()
        invariant
            from <= i <= v@.len(),
            s == v@.skip(from as int),
            n <= max,
            all_digits(s.take(i - from)),
            digits_value(s.take(i - from)) == n,
        decreases v@.len() - i,
    {
        let c = v[i];
        let ghost k = i - from;
        assert(s.take(k + 1).drop_last() =~= s.take(k));
        assert(s[k] == c);
        if !('0' <= c && c <= '9') {
            return None;
        }
        let d: u64 = c as u64 - '0' as u64;
        let next: u128 = n as u128 * 10 + d as u128;
        if next > max as u128 {
            proof {
                lemma_digits_grow(s, k + 1);
            }
            return None;
        }
        n = next as u64;
        i = i + 1;
        assert forall|j: int| 0 <= j < k + 1 implies is_digit(#[trigger] s.take(k + 1)[j]) by {
            if j < k {
                assert(s.take(k)[j] == s.take(k + 1)[j]);
            }
        }
    }
    assert(s.take(i - from) =~= s);
    Some(n)
}

/// Reads an unsigned number of at most `max`.
pub fn parse_unsigned(s: &str, max: u64) -> (r: Option<u64>)
    ensures
        match r {
            Some(n) => read_unsigned(s@, max as nat) == Some(n as nat),
            None => read_unsigned(s@, max as nat) is None,
        },
{
    let v = chars_of(s);
    let from: usize = if v.len() > 0 && v[0] == '+' {
        1
    } else {
        0
    };
    assert(v@.skip(0) =~= v@);
    digits_from(&v, from, max)
}

/// Reads a signed number from `-max - 1` to `max`.
pub fn parse_signed(s: &str, max: i64) -> (r: Option<i64>)
    requires
        max >= 0,
    ensures
        match r {
            Some(n) => read_signed(s@, max as nat) == Some(n as int),
            None => read_signed(s@, max as nat) is None,
        },
{
    let v = chars_of(s);
    if v.len() > 0 && v[0] == '-' {
        match digits_from(&v, 1, max as u64 + 1) {
            Some(n) => if n == 0x8000_0000_0000_0000 {
                Some(i64::MIN)
            } else {
                Some(-(n as i64))
            },
            None => None,
        }
    } else {
        match parse_unsigned(s, max as u64) {
            Some(n) => Some(n as i64),
            None => None,
        }
    }
}

/// Whether one text comes before another in the order of their characters.
pub open spec fn text_less(a: Seq<char>, b: Seq<char>) -> bool
    decreases a.len(),
{
    if b.len() == 0 {
        false
    } else if a.len() == 0 {
        true
    } else if a[0] == b[0] {
        text_less(a.skip(1), b.skip(1))
    } else {
        a[0] < b[0]
    }
}

/// No text comes before itself, and of two different texts one comes before the other.
pub proof fn lemma_text_less_total(a: Seq<char>, b: Seq<char>)
    ensures
        !(text_less(a, b) && text_less(b, a)),
        a == b ==> !text_less(a, b),
        text_less(a, b) || text_less(b, a) || a == b,
    decreases a.len(),
{
    if a.len() > 0 && b.len() > 0 && a[0] == b[0] {
        lemma_text_less_total(a.skip(1), b.skip(1));
        if a.skip(1) == b.skip(1) {
            assert(a =~= seq![a[0]] + a.skip(1));
            assert(b =~= seq![b[0]] + b.skip(1));
        }
    } else if a.len() == 0 && b.len() == 0 {
        assert(a =~= b);
    }
}

/// The order of texts is transitive.
pub proof fn lemma_text_less_transitive(a: Seq<char>, b: Seq<char>, c: Seq<char>)
    requires
        text_less(a, b),
        text_less(b, c),
    ensures
        text_less(a, c),
    decreases a.len(),
{
    if a.len() > 0 && a[0] == b[0] && b[0] == c[0] {
        lemma_text_less_transitive(a.skip(1), b.skip(1), c.skip(1));
    }
}

/// Tells whether one text comes before another.
pub fn precedes(a: &str, b: &str) -> (r: bool)
    ensures
        r == text_less(a@, b@),
{
    let v = chars_of(a);
    let w = chars_of(b);
    let mut i: usize = 0;
    assert(a@.skip(0) =~= a@);
    assert(b@.skip(0) =~= b@);
    loop
        invariant
            v@ == a@,
            w@ == b@,
            i <= v@.len(),
            i <= w@.len(),
            text_less(a@, b@) == text_less(a@.skip(i as int), b@.skip(i as int)),
        decreases v@.len() - i,
    {
        if i == w.len() {
            return false;
        }
        if i == v.len() {
            return true;
        }
        if v[i] != w[i] {
            return v[i] < w[i];
        }
        assert(a@.skip(i as int).skip(1) =~= a@.skip(i + 1));
        assert(b@.skip(i as int).skip(1) =~= b@.skip(i + 1));
        i = i + 1;
    }
}

/// A list of different texts in order, with one more text in its place.
pub open spec fn with_text(list: Seq<Seq<char>>, t: Seq<char>) -> Seq<Seq<char>>
    decreases list.len(),
{
    if list.len() == 0 {
        seq![t]
    } else if list.last() == t {
        list
    } else if text_less(list.last(), t) {
        list.push(t)
    } else {
        with_text(list.drop_last(), t).push(list.last())
    }
}

/// The different texts of a list, in order.
pub open spec fn sorted_texts(list: Seq<Seq<char>>) -> Seq<Seq<char>>
    decreases list.len(),
{
    if list.len() == 0 {
        Seq::empty()
    } else {
        with_text(sorted_texts(list.drop_last()), list.last())
    }
}

/// Whether each text comes before those behind it.
pub open spec fn increasing(list: Seq<Seq<char>>) -> bool {
    forall|i: int, j: int| 0 <= i < j < list.len() ==> text_less(#[trigger] list[i], #[trigger] list[j])
}

proof fn lemma_with_text(list: Seq<Seq<char>>, t: Seq<char>)
    requires
        increasing(list),
    ensures
        increasing(with_text(list, t)),
        forall|x: Seq<char>|
            #[trigger] with_text(list, t).contains(x) <==> list.contains(x) || x == t,
    decreases list.len(),
{
    let r = with_text(list, t);
    if list.len() == 0 {
        assert(r[0] == t);
    } else if list.last() == t {
        assert(list[list.len() - 1] == t);
    } else if text_less(list.last(), t) {
        assert forall|i: int, j: int| 0 <= i < j < r.len() implies text_less(
            #[trigger] r[i],
            #[trigger] r[j],
        ) by {
            if j == list.len() && i < list.len() - 1 {
                lemma_text_less_transitive(list[i], list.last(), t);
            }
        }
        assert forall|x: Seq<char>| r.contains(x) <==> list.contains(x) || x == t by {
            if list.contains(x) {
                let k = choose|k: int| 0 <= k < list.len() && list[k] == x;
                assert(r[k] == x);
            }
            assert(r[list.len() as int] == t);
        }
    } else {
        let front = list.drop_last();
        let q = with_text(front, t);
        lemma_with_text(front, t);
        lemma_text_less_total(list.last(), t);
        assert forall|i: int, j: int| 0 <= i < j < r.len() implies text_less(
            #[trigger] r[i],
            #[trigger] r[j],
        ) by {
            if j == q.len() {
                assert(r[i] == q[i]);
                assert(q.contains(q[i]));
                assert(r =~= q.push(list.last()));
                if r[i] != t {
                    assert(front.contains(q[i]));
                    let k = choose|k: int| 0 <= k < front.len() && front[k] == r[i];
                    assert(text_less(list[k], list[list.len() - 1]));
                }
            } else {
                assert(r[i] == q[i] && r[j] == q[j]);
            }
        }
        assert forall|x: Seq<char>| r.contains(x) <==> list.contains(x) || x == t by {
            assert(list =~= front.push(list.last()));
            if q.contains(x) {
                let k = choose|k: int| 0 <= k < q.len() && q[k] == x;
                assert(r[k] == x);
            }
            assert(r[q.len() as int] == list.last());
            if front.contains(x) {
                let k = choose|k: int| 0 <= k < front.len() && front[k] == x;
                assert(list[k] == x);
            }
            assert(list[list.len() - 1] == list.last());
        }
    }
}

/// [`sorted_texts`] holds each text of the list once, and no other, in increasing order.
pub proof fn lemma_sorted_texts(list: Seq<Seq<char>>)
    ensures
        increasing(sorted_texts(list)),
        forall|x: Seq<char>| #[trigger] sorted_texts(list).contains(x) <==> list.contains(x),
    decreases list.len(),
{
    if list.len() > 0 {
        let front = list.drop_last();
        lemma_sorted_texts(front);
        lemma_with_text(sorted_texts(front), list.last());
        assert forall|x: Seq<char>| sorted_texts(list).contains(x) <==> list.contains(x) by {
            if list.contains(x) && x != list.last() {
                let k = choose|k: int| 0 <= k < list.len() && list[k] == x;
                assert(front[k] == x);
            }
            if front.contains(x) {
                let k = choose|k: int| 0 <= k < front.len() && front[k] == x;
                assert(list[k] == x);
            }
            assert(list[list.len() - 1] == list.last());
        }
    }
}

/// Puts a text in its place in an ordered list, unless it is there.
pub fn insert_sorted(list: &mut Vec<String>, t: String)
    ensures
        views(final(list)@) == with_text(views(old(list)@), t@),
{
    let ghost all = views(list@);
    let mut i: usize = list.len();
    assert(all.skip(i as int) =~= Seq::empty());
    assert(all.take(i as int) =~= all);
    assert(with_text(all, t@) + all.skip(i as int) =~= with_text(all, t@));
    loop
        invariant
            i <= list@.len(),
            all == views(list@),
            all == views(old(list)@),
            with_text(all, t@) == with_text(all.take(i as int), t@) + all.skip(i as int),
        decreases i,
    {
        let ghost head = all.take(i as int);
        if i == 0 {
            list.insert(0, t);
            assert(views(list@) =~= with_text(head, t@) + all.skip(0));
            return;
        }
        assert(head.last() == list@[i - 1]@);
        assert(head.drop_last() =~= all.take(i - 1));
        if list[i - 1] == t {
            assert(views(list@) =~= head + all.skip(i as int));
            return;
        }
        if precedes(list[i - 1].as_str(), t.as_str()) {
            list.insert(i, t);
            assert(views(list@) =~= head.push(t@) + all.skip(i as int));
            return;
        }
        assert(with_text(head.drop_last(), t@).push(head.last()) + all.skip(i as int) =~= with_text(
            head.drop_last(),
            t@,
        ) + all.skip(i - 1));
        i = i - 1;
    }
}

/// The different texts of a list, in order.
pub fn sort_dedup(list: &Vec<String>) -> (r: Vec<String>)
    ensures
        views(r@) == sorted_texts(views(list@)),
{
    let mut r: Vec<String> = Vec::new();
    let mut i: usize = 0;
    let ghost all = views(list@);
    assert(views(r@) =~= sorted_texts(all.take(0)));
    while i < list.len()
        invariant
            i <= list@.len(),
            all == views(list@),
            views(r@) == sorted_texts(all.take(i as int)),
        decreases list@.len() - i,
    {
        insert_sorted(&mut r, list[i].clone());
        assert(all.take(i + 1).drop_last() =~= all.take(i as int));
        i = i + 1;
    }
    assert(all.take(i as int) =~= all);
    r
}


/// The UTF-8 bytes of a text.
pub fn bytes_of(s: &str) -> (r: Vec<u8>)
    ensures
        r@ == encode_utf8(s@),
{
    s.as_bytes_vec()
}

/// A text without the occurrences of `p` at its end.
pub open spec fn trim_end_text(s: Seq<char>, p: Seq<char>) -> Seq<char>
    decreases s.len(),
{
    if p.len() > 0 && finishes_with(s, p) {
        trim_end_text(s.take(s.len() - p.len()), p)
    } else {
        s
    }
}

/// Removes the occurrences of `p` from the end of a text.
pub fn trim_end_matches_text(s: &str, p: &str) -> (r: String)
    ensures
        r@ == trim_end_text(s@, p@),
{
    let v = chars_of(s);
    let q = chars_of(p);
    let mut j: usize = v.len();
    assert(s@.take(j as int) =~= s@);
    while q.len() > 0 && q.len() <= j && occurs(&v, &q, j - q.len())
        invariant
            v@ == s@,
            q@ == p@,
            j <= v@.len(),
            trim_end_text(s@, p@) == trim_end_text(s@.take(j as int), p@),
        decreases j,
    {
        let ghost t = s@.take(j as int);
        assert(t.subrange(t.len() - p@.len(), t.len() as int) =~= s@.subrange(j - p@.len(), j as int));
        assert(t.take(t.len() - p@.len()) =~= s@.take(j - p@.len()));
        j = j - q.len();
    }
    proof {
        let t = s@.take(j as int);
        if p@.len() > 0 && p@.len() <= j {
            assert(t.subrange(t.len() - p@.len(), t.len() as int) =~= s@.subrange(
                j - p@.len(),
                j as int,
            ));
        }
    }
    string_range(&v, 0, j)
}

/// What a list holds that was put together from two.
pub proof fn lemma_contains_sum(a: Seq<Seq<char>>, b: Seq<Seq<char>>, t: Seq<char>)
    ensures
        (a + b).contains(t) == (a.contains(t) || b.contains(t)),
{
    if a.contains(t) {
        let i = choose|i: int| 0 <= i < a.len() && a[i] == t;
        assert((a + b)[i] == t);
    }
    if b.contains(t) {
        let i = choose|i: int| 0 <= i < b.len() && b[i] == t;
        assert((a + b)[a.len() + i] == t);
    }
}

/// What is picked from an increasing list is increasing.
pub proof fn lemma_filter_increasing(list: Seq<Seq<char>>, test: spec_fn(Seq<char>) -> bool)
    requires
        increasing(list),
    ensures
        increasing(list.filter(test)),
        forall|t: Seq<char>|
            #[trigger] list.filter(test).contains(t) == (list.contains(t) && test(t)),
    decreases list.len(),
{
    reveal(Seq::filter);
    if list.len() > 0 {
        let front = list.drop_last();
        let last = list.last();
        assert(increasing(front)) by {
            assert forall|i: int, j: int| 0 <= i < j < front.len() implies text_less(
                #[trigger] front[i],
                #[trigger] front[j],
            ) by {
                assert(text_less(list[i], list[j]));
            }
        }
        lemma_filter_increasing(front, test);
        let before = front.filter(test);
        let after = list.filter(test);
        assert forall|i: int, j: int| 0 <= i < j < after.len() implies text_less(
            #[trigger] after[i],
            #[trigger] after[j],
        ) by {
            if j < before.len() {
                assert(text_less(before[i], before[j]));
            } else {
                assert(before.contains(before[i]));
                assert(front.contains(before[i]));
                let k = choose|k: int| 0 <= k < front.len() && front[k] == before[i];
                assert(text_less(list[k], list[list.len() - 1]));
            }
        }
        assert forall|t: Seq<char>| #[trigger] after.contains(t) == (list.contains(t) && test(t)) by {
            if after.contains(t) {
                let k = choose|k: int| 0 <= k < after.len() && after[k] == t;
                if k < before.len() {
                    assert(before[k] == t);
                    assert(before.contains(t));
                    let m = choose|m: int| 0 <= m < front.len() && front[m] == t;
                    assert(list[m] == t);
                } else {
                    assert(list[list.len() - 1] == t);
                }
            }
            if list.contains(t) && test(t) {
                let m = choose|m: int| 0 <= m < list.len() && list[m] == t;
                if m < front.len() {
                    assert(front[m] == t);
                    assert(front.contains(t));
                    assert(before.contains(t));
                    let k = choose|k: int| 0 <= k < before.len() && before[k] == t;
                    assert(after[k] == t);
                } else {
                    assert(after[before.len() as int] == t);
                }
            }
        }
    }
}

/// Two increasing lists that hold the same texts are the same.
pub proof fn lemma_increasing_unique(a: Seq<Seq<char>>, b: Seq<Seq<char>>)
    requires
        increasing(a),
        increasing(b),
        forall|t: Seq<char>| a.contains(t) == b.contains(t),
    ensures
        a == b,
    decreases a.len(),
{
    if a.len() == 0 {
        if b.len() > 0 {
            assert(b.contains(b[0]));
        }
        assert(a =~= b);
    } else {
        assert(a.contains(a.last()));
        assert(b.len() > 0) by {
            assert(b.contains(a.last()));
        }
        assert(b.contains(b.last()));
        let x = a.last();
        let y = b.last();
        let i = choose|i: int| 0 <= i < b.len() && b[i] == x;
        let j = choose|j: int| 0 <= j < a.len() && a[j] == y;
        if i < b.len() - 1 {
            assert(text_less(b[i], b[b.len() - 1]));
        }
        if j < a.len() - 1 {
            assert(text_less(a[j], a[a.len() - 1]));
        }
        lemma_text_less_total(x, y);
        assert(x == y);
        let front = a.drop_last();
        let other = b.drop_last();
        assert forall|t: Seq<char>| front.contains(t) == other.contains(t) by {
            if front.contains(t) {
                let k = choose|k: int| 0 <= k < front.len() && front[k] == t;
                assert(a[k] == t);
                assert(text_less(a[k], a[a.len() - 1]));
                lemma_text_less_total(t, x);
                assert(b.contains(t));
                let m = choose|m: int| 0 <= m < b.len() && b[m] == t;
                assert(other[m] == t);
            }
            if other.contains(t) {
                let k = choose|k: int| 0 <= k < other.len() && other[k] == t;
                assert(b[k] == t);
                assert(text_less(b[k], b[b.len() - 1]));
                lemma_text_less_total(t, x);
                assert(a.contains(t));
                let m = choose|m: int| 0 <= m < a.len() && a[m] == t;
                assert(front[m] == t);
            }
        }
        assert(increasing(front)) by {
            assert forall|p: int, q: int| 0 <= p < q < front.len() implies text_less(
                #[trigger] front[p],
                #[trigger] front[q],
            ) by {
                assert(text_less(a[p], a[q]));
            }
        }
        assert(increasing(other)) by {
            assert forall|p: int, q: int| 0 <= p < q < other.len() implies text_less(
                #[trigger] other[p],
                #[trigger] other[q],
            ) by {
                assert(text_less(b[p], b[q]));
            }
        }
        lemma_increasing_unique(front, other);
        assert(a =~= front.push(x));
        assert(b =~= other.push(y));
    }
}

} // verus!
