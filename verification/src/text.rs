//! Text primitives. Every function works on Unicode scalar values and is
//! specified over the `Seq<char>` that a string holds.
#![verifier::loop_isolation(false)]

use vstd::prelude::*;

verus! {

/// `String::push` appends the given character to the end of the string.
pub assume_specification[ String::push ](text: &mut String, c: char)
    ensures
        final(text)@ == old(text)@.push(c),
;

/// A set of characters that a trim removes.
#[derive(Debug, Clone, Copy)]
pub enum CharClass {
    /// The characters with the Unicode `White_Space` property.
    Space,
    /// One single character.
    Only(char),
}

/// The Unicode `White_Space` property.
pub open spec fn whitespace(c: char) -> bool {
    let n = c as u32;
    ||| 9 <= n <= 13
    ||| n == 32
    ||| n == 0x85
    ||| n == 0xa0
    ||| n == 0x1680
    ||| 0x2000 <= n <= 0x200a
    ||| n == 0x2028
    ||| n == 0x2029
    ||| n == 0x202f
    ||| n == 0x205f
    ||| n == 0x3000
}

/// Whether `c` is white space.
pub fn is_whitespace(c: char) -> (r: bool)
    ensures
        r == whitespace(c),
{
    let n: u32 = c as u32;
    (9 <= n && n <= 13) || n == 32 || n == 0x85 || n == 0xa0 || n == 0x1680 || (0x2000 <= n && n
        <= 0x200a) || n == 0x2028 || n == 0x2029 || n == 0x202f || n == 0x205f || n == 0x3000
}

impl CharClass {
    /// The characters of the class.
    pub open spec fn has(self, c: char) -> bool {
        match self {
            CharClass::Space => whitespace(c),
            CharClass::Only(member) => c == member,
        }
    }

    /// Whether `c` belongs to the class.
    pub fn contains(self, c: char) -> (r: bool)
        ensures
            r == self.has(c),
    {
        match self {
            CharClass::Space => is_whitespace(c),
            CharClass::Only(member) => c == member,
        }
    }
}

/// The characters of a text, as a vector.
pub fn to_chars(text: &str) -> (chars: Vec<char>)
    ensures
        chars@ == text@,
{
    let mut chars: Vec<char> = Vec::new();
    for c in it: text.chars()
        invariant
            chars@ == text@.take(it.index() as int),
            it.seq() == text@,
    {
        chars.push(c);
    }
    proof {
        assert(text@.take(text@.len() as int) == text@);
    }
    chars
}

/// The text made of the characters `start..end`.
pub fn text_range(chars: &Vec<char>, start: usize, end: usize) -> (text: String)
    requires
        start <= end <= chars.len(),
    ensures
        text@ == chars@.subrange(start as int, end as int),
{
    let mut text = String::new();
    let mut i: usize = start;
    while i < end
        invariant
            start <= i <= end <= chars.len(),
            text@ == chars@.subrange(start as int, i as int),
        decreases end - i,
    {
        text.push(chars[i]);
        i += 1;
    }
    text
}

/// The text made of all of `chars`.
pub fn text_of(chars: &Vec<char>) -> (text: String)
    ensures
        text@ == chars@,
{
    proof {
        assert(chars@.subrange(0, chars@.len() as int) == chars@);
    }
    text_range(chars, 0, chars.len())
}

/// A copy of a borrowed text.
pub fn owned(text: &str) -> (r: String)
    ensures
        r@ == text@,
{
    text.to_owned()
}

/// A copy of an optional borrowed text.
pub fn owned_option(text: Option<&str>) -> (r: Option<String>)
    ensures
        r.deep_view() == text.deep_view(),
{
    match text {
        Some(value) => Some(value.to_owned()),
        None => None,
    }
}

/// A copy of an optional owned text.
pub fn clone_option(text: &Option<String>) -> (r: Option<String>)
    ensures
        r.deep_view() == text.deep_view(),
{
    match text {
        Some(value) => Some(value.clone()),
        None => None,
    }
}

/// Appends an item to a list.
pub fn push_item<T: DeepView>(items: &mut Vec<T>, item: T)
    ensures
        final(items).deep_view() == old(items).deep_view().push(item.deep_view()),
        final(items)@ == old(items)@.push(item),
{
    items.push(item);
    assert(items.deep_view() =~= old(items).deep_view().push(item.deep_view()));
}

/// A copy of a list of texts.
pub fn clone_texts(texts: &Vec<String>) -> (r: Vec<String>)
    ensures
        r.deep_view() == texts.deep_view(),
{
    let mut out: Vec<String> = Vec::new();
    let mut i: usize = 0;
    while i < texts.len()
        invariant
            i <= texts.len(),
            out.deep_view() == texts.deep_view().take(i as int),
        decreases texts.len() - i,
    {
        push_item(&mut out, texts[i].clone());
        i += 1;
        assert(out.deep_view() =~= texts.deep_view().take(i as int));
    }
    assert(texts.deep_view().take(texts.len() as int) == texts.deep_view());
    out
}

/// The tail of a list of texts, from `start` on.
pub fn texts_from(texts: &Vec<String>, start: usize) -> (r: Vec<String>)
    requires
        start <= texts.len(),
    ensures
        r.deep_view() == texts.deep_view().skip(start as int),
{
    let mut out: Vec<String> = Vec::new();
    let mut i: usize = start;
    while i < texts.len()
        invariant
            start <= i <= texts.len(),
            out.deep_view() == texts.deep_view().subrange(start as int, i as int),
        decreases texts.len() - i,
    {
        push_item(&mut out, texts[i].clone());
        i += 1;
        assert(out.deep_view() =~= texts.deep_view().subrange(start as int, i as int));
    }
    assert(texts.deep_view().subrange(start as int, texts.len() as int)
        =~= texts.deep_view().skip(start as int));
    out
}

/// Whether two texts hold the same characters.
pub fn same(a: &str, b: &str) -> (r: bool)
    ensures
        r == (a@ == b@),
{
    let left = to_chars(a);
    let right = to_chars(b);
    if left.len() != right.len() {
        return false;
    }
    let mut i: usize = 0;
    while i < left.len()
        invariant
            i <= left.len(),
            left.len() == right.len(),
            forall|j: int| 0 <= j < i ==> left[j] == right[j],
        decreases left.len() - i,
    {
        if left[i] != right[i] {
            assert(left@[i as int] != right@[i as int]);
            return false;
        }
        i += 1;
    }
    assert(left@ =~= right@);
    true
}

/// Whether an optional text is exactly the given text.
pub fn option_is(value: Option<&str>, text: &str) -> (r: bool)
    ensures
        r == (value.deep_view() == Some(text@)),
{
    match value {
        Some(value) => same(value, text),
        None => false,
    }
}

/// Whether two optional texts are both absent or hold the same characters.
pub fn same_option(a: Option<&str>, b: Option<&str>) -> (r: bool)
    ensures
        r == (a.deep_view() == b.deep_view()),
{
    match (a, b) {
        (Some(left), Some(right)) => same(left, right),
        (None, None) => true,
        _ => false,
    }
}

/// An optional owned text, borrowed.
pub fn option_str(text: &Option<String>) -> (r: Option<&str>)
    ensures
        r.deep_view() == text.deep_view(),
{
    match text {
        Some(value) => Some(value.as_str()),
        None => None,
    }
}

// Trimming.

/// How many characters at the start of `s` belong to `class`.
pub open spec fn leading(s: Seq<char>, class: CharClass) -> nat
    decreases s.len(),
{
    if s.len() > 0 && class.has(s[0]) {
        1 + leading(s.skip(1), class)
    } else {
        0
    }
}

/// How many characters at the end of `s` belong to `class`.
pub open spec fn trailing(s: Seq<char>, class: CharClass) -> nat
    decreases s.len(),
{
    if s.len() > 0 && class.has(s.last()) {
        1 + trailing(s.drop_last(), class)
    } else {
        0
    }
}

/// `s` without the leading characters of `class`.
pub open spec fn trimmed_start(s: Seq<char>, class: CharClass) -> Seq<char> {
    s.skip(leading(s, class) as int)
}

/// `s` without the trailing characters of `class`.
pub open spec fn trimmed_end(s: Seq<char>, class: CharClass) -> Seq<char> {
    s.take(s.len() - trailing(s, class))
}

/// `s` without the leading and trailing characters of `class`.
pub open spec fn trimmed_of(s: Seq<char>, class: CharClass) -> Seq<char> {
    trimmed_end(trimmed_start(s, class), class)
}

/// `s` without leading and trailing white space.
pub open spec fn trimmed(s: Seq<char>) -> Seq<char> {
    trimmed_of(s, CharClass::Space)
}

pub proof fn lemma_leading(s: Seq<char>, class: CharClass, n: nat)
    requires
        n <= s.len(),
        forall|j: int| 0 <= j < n ==> class.has(s[j]),
        n < s.len() ==> !class.has(s[n as int]),
    ensures
        leading(s, class) == n,
    decreases n,
{
    if n > 0 {
        assert forall|j: int| 0 <= j < n - 1 implies class.has(s.skip(1)[j]) by {
            assert(s.skip(1)[j] == s[j + 1]);
        }
        lemma_leading(s.skip(1), class, (n - 1) as nat);
    }
}

pub proof fn lemma_trailing(s: Seq<char>, class: CharClass, n: nat)
    requires
        n <= s.len(),
        forall|j: int| s.len() - n <= j < s.len() ==> class.has(s[j]),
        n < s.len() ==> !class.has(s[s.len() - n - 1]),
    ensures
        trailing(s, class) == n,
    decreases n,
{
    if n > 0 {
        lemma_trailing(s.drop_last(), class, (n - 1) as nat);
    }
}

/// What `leading` and `trailing` count.
pub proof fn lemma_trim_bounds(s: Seq<char>, class: CharClass)
    ensures
        leading(s, class) <= s.len(),
        trailing(s, class) <= s.len(),
        forall|j: int| 0 <= j < leading(s, class) ==> class.has(s[j]),
        leading(s, class) < s.len() ==> !class.has(s[leading(s, class) as int]),
        forall|j: int| s.len() - trailing(s, class) <= j < s.len() ==> class.has(s[j]),
        trailing(s, class) < s.len() ==> !class.has(s[s.len() - trailing(s, class) - 1]),
    decreases s.len(),
{
    if s.len() > 0 {
        lemma_trim_bounds(s.skip(1), class);
        lemma_trim_bounds(s.drop_last(), class);
        assert forall|j: int| s.len() - trailing(s, class) <= j < s.len() implies class.has(
            s[j],
        ) by {
            if j < s.len() - 1 {
                assert(s[j] == s.drop_last()[j]);
            }
        }
        if class.has(s[0]) {
            assert forall|j: int| 0 <= j < leading(s, class) implies class.has(s[j]) by {
                if j > 0 {
                    assert(s[j] == s.skip(1)[j - 1]);
                }
            }
        }
    }
}

/// Removes the leading characters of `class`.
pub fn trim_start_class(text: &str, class: CharClass) -> (r: String)
    ensures
        r@ == trimmed_start(text@, class),
{
    let chars = to_chars(text);
    let mut i: usize = 0;
    while i < chars.len() && class.contains(chars[i])
        invariant
            i <= chars.len(),
            forall|j: int| 0 <= j < i ==> class.has(chars@[j]),
        decreases chars.len() - i,
    {
        i += 1;
    }
    proof {
        lemma_leading(chars@, class, i as nat);
    }
    text_range(&chars, i, chars.len())
}

/// Removes the trailing characters of `class`.
pub fn trim_end_class(text: &str, class: CharClass) -> (r: String)
    ensures
        r@ == trimmed_end(text@, class),
{
    let chars = to_chars(text);
    let mut end: usize = chars.len();
    while end > 0 && class.contains(chars[end - 1])
        invariant
            end <= chars.len(),
            forall|j: int| end <= j < chars.len() ==> class.has(chars@[j]),
        decreases end,
    {
        end -= 1;
    }
    proof {
        lemma_trailing(chars@, class, (chars.len() - end) as nat);
    }
    text_range(&chars, 0, end)
}

/// Removes the characters of `class` from both ends.
pub fn trim_class(text: &str, class: CharClass) -> (r: String)
    ensures
        r@ == trimmed_of(text@, class),
{
    let start = trim_start_class(text, class);
    trim_end_class(start.as_str(), class)
}

/// Removes white space from both ends.
pub fn trim(text: &str) -> (r: String)
    ensures
        r@ == trimmed(text@),
{
    trim_class(text, CharClass::Space)
}

/// Removes white space from the start.
pub fn trim_start(text: &str) -> (r: String)
    ensures
        r@ == trimmed_start(text@, CharClass::Space),
{
    trim_start_class(text, CharClass::Space)
}

// Prefixes, suffixes and occurrences.

/// Whether `part` stands in `s` at position `at`.
pub open spec fn occurs_at(s: Seq<char>, part: Seq<char>, at: int) -> bool {
    0 <= at && at + part.len() <= s.len() && s.subrange(at, at + part.len()) == part
}

/// Whether `s` starts with `prefix`.
pub open spec fn has_prefix(s: Seq<char>, prefix: Seq<char>) -> bool {
    occurs_at(s, prefix, 0)
}

/// Whether `s` ends with `suffix`.
pub open spec fn has_suffix(s: Seq<char>, suffix: Seq<char>) -> bool {
    occurs_at(s, suffix, s.len() - suffix.len())
}

/// Whether `part` stands somewhere in `s`.
pub open spec fn has_text(s: Seq<char>, part: Seq<char>) -> bool {
    exists|at: int| #[trigger] occurs_at(s, part, at)
}

/// Whether the first character of `s` is `c`.
pub open spec fn starts_char(s: Seq<char>, c: char) -> bool {
    s.len() > 0 && s[0] == c
}

/// Whether the last character of `s` is `c`.
pub open spec fn ends_char(s: Seq<char>, c: char) -> bool {
    s.len() > 0 && s.last() == c
}

/// Whether `part` stands in `chars` at position `at`.
pub fn chars_match_at(chars: &Vec<char>, part: &Vec<char>, at: usize) -> (r: bool)
    requires
        at <= chars.len(),
    ensures
        r == occurs_at(chars@, part@, at as int),
{
    if part.len() > chars.len() - at {
        return false;
    }
    let mut i: usize = 0;
    while i < part.len()
        invariant
            i <= part.len(),
            at + part.len() <= chars.len(),
            forall|j: int| 0 <= j < i ==> chars@[at + j] == part@[j],
        decreases part.len() - i,
    {
        if chars[at + i] != part[i] {
            proof {
                let sub = chars@.subrange(at as int, at + part.len());
                assert(sub[i as int] == chars@[at + i]);
            }
            return false;
        }
        i += 1;
    }
    assert(chars@.subrange(at as int, at + part.len()) =~= part@);
    true
}

/// Whether the text starts with `prefix`.
pub fn starts_with(text: &str, prefix: &str) -> (r: bool)
    ensures
        r == has_prefix(text@, prefix@),
{
    chars_match_at(&to_chars(text), &to_chars(prefix), 0)
}

/// What follows a prefix.
pub open spec fn after_prefix(s: Seq<char>, prefix: Seq<char>) -> Option<Seq<char>> {
    if has_prefix(s, prefix) {
        Some(s.skip(prefix.len() as int))
    } else {
        None
    }
}

/// What follows the prefix, if the text starts with it.
pub fn strip_prefix(text: &str, prefix: &str) -> (r: Option<String>)
    ensures
        r.deep_view() == after_prefix(text@, prefix@),
{
    let chars = to_chars(text);
    let part = to_chars(prefix);
    if chars_match_at(&chars, &part, 0) {
        let rest = text_range(&chars, part.len(), chars.len());
        assert(rest@ =~= text@.skip(part.len() as int));
        Some(rest)
    } else {
        None
    }
}

/// What is left when a prefix is taken off as often as it stands there.
pub open spec fn without_prefixes(s: Seq<char>, prefix: Seq<char>) -> Seq<char>
    decreases s.len(),
{
    if prefix.len() > 0 && has_prefix(s, prefix) {
        without_prefixes(s.skip(prefix.len() as int), prefix)
    } else {
        s
    }
}

/// Takes a prefix off as often as it stands there.
pub fn strip_prefixes(text: &str, prefix: &str) -> (r: String)
    ensures
        r@ == without_prefixes(text@, prefix@),
{
    let chars = to_chars(text);
    let part = to_chars(prefix);
    let mut i: usize = 0;
    assert(chars@.skip(0) =~= chars@);
    while part.len() > 0 && chars_match_at(&chars, &part, i)
        invariant
            i <= chars.len(),
            without_prefixes(chars@.skip(i as int), prefix@) == without_prefixes(text@, prefix@),
        decreases chars.len() - i,
    {
        let ghost rest = chars@.skip(i as int);
        assert(rest.subrange(0, part.len() as int) =~= chars@.subrange(i as int, i + part.len()));
        assert(rest.skip(part.len() as int) =~= chars@.skip(i + part.len()));
        i += part.len();
    }
    let ghost rest = chars@.skip(i as int);
    proof {
        if part.len() > 0 && has_prefix(rest, prefix@) {
            assert(rest.subrange(0, part.len() as int) =~= chars@.subrange(
                i as int,
                i + part.len(),
            ));
        }
    }
    let left = text_range(&chars, i, chars.len());
    assert(left@ =~= rest);
    left
}

/// Whether the text ends with `suffix`.
pub fn ends_with(text: &str, suffix: &str) -> (r: bool)
    ensures
        r == has_suffix(text@, suffix@),
{
    let chars = to_chars(text);
    let part = to_chars(suffix);
    if part.len() > chars.len() {
        return false;
    }
    let at: usize = chars.len() - part.len();
    chars_match_at(&chars, &part, at)
}

/// Whether the text starts with the character `c`.
pub fn starts_with_char(text: &str, c: char) -> (r: bool)
    ensures
        r == starts_char(text@, c),
{
    let chars = to_chars(text);
    chars.len() > 0 && chars[0] == c
}

/// Whether the text ends with the character `c`.
pub fn ends_with_char(text: &str, c: char) -> (r: bool)
    ensures
        r == ends_char(text@, c),
{
    let chars = to_chars(text);
    chars.len() > 0 && chars[chars.len() - 1] == c
}

/// Whether the text holds the character `c`.
pub fn contains_char(text: &str, c: char) -> (r: bool)
    ensures
        r == text@.contains(c),
{
    let chars = to_chars(text);
    let mut i: usize = 0;
    while i < chars.len()
        invariant
            i <= chars.len(),
            forall|j: int| 0 <= j < i ==> chars@[j] != c,
        decreases chars.len() - i,
    {
        if chars[i] == c {
            assert(chars@[i as int] == c);
            return true;
        }
        i += 1;
    }
    false
}

/// Whether `part` stands somewhere in the text.
pub fn contains(text: &str, part: &str) -> (r: bool)
    ensures
        r == has_text(text@, part@),
{
    let chars = to_chars(text);
    let part = to_chars(part);
    let mut i: usize = 0;
    while i <= chars.len()
        invariant
            i <= chars.len() + 1,
            forall|j: int| 0 <= j < i ==> !#[trigger] occurs_at(chars@, part@, j),
        decreases chars.len() + 1 - i,
    {
        if chars_match_at(&chars, &part, i) {
            return true;
        }
        if i == chars.len() {
            break;
        }
        i += 1;
    }
    false
}

} // verus!
