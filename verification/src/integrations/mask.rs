//! Blanking out what is not code: strings, comments and other literals are
//! replaced by spaces, so that a scan for markers sees only code.
#![verifier::loop_isolation(false)]

use crate::split::{
    byte_len, join, joined, lemma_position, lemma_position_bounds, lines, lines_of, position_of,
    repeat_char, utf8_len, without_return,
};
use crate::text::{
    ends_char, ends_with_char, has_prefix, leading, lemma_leading, lemma_trim_bounds, push_item,
    starts_with, text_of, to_chars, trim_start, trimmed_start, whitespace, is_whitespace, CharClass,
};
use vstd::prelude::*;
use vstd::string::*;

verus! {

/// Which literals a C-like language has besides double-quoted strings.
#[derive(Debug, Clone, Copy)]
pub struct CLikeMaskOptions {
    pub single_quote_strings: bool,
    pub rust_raw_strings: bool,
    pub template_literals: bool,
    pub regex_literals: bool,
}

impl Default for CLikeMaskOptions {
    fn default() -> (r: Self)
        ensures
            r == plain_c(),
    {
        CLikeMaskOptions {
            single_quote_strings: false,
            rust_raw_strings: false,
            template_literals: false,
            regex_literals: false,
        }
    }
}

/// No literals but double-quoted strings.
pub open spec fn plain_c() -> CLikeMaskOptions {
    CLikeMaskOptions {
        single_quote_strings: false,
        rust_raw_strings: false,
        template_literals: false,
        regex_literals: false,
    }
}

/// The lexical families that are masked character by character.
#[derive(Debug, Clone, Copy)]
pub enum Syntax {
    CLike(CLikeMaskOptions),
    Python,
    JsonLike { hash_comments: bool },
    HtmlXml,
}

/// What the scan is in the middle of.
#[derive(Debug, Clone, Copy)]
pub enum Region {
    Code,
    Quoted { quote: char, escaped: bool },
    Triple { quote: char },
    Raw { hashes: usize },
    Template { escaped: bool },
    Pattern { escaped: bool },
    LineComment,
    BlockComment { depth: usize },
    MarkupComment,
}

/// Whether the character at position `at` of `s` is `c`.
pub open spec fn char_at(s: Seq<char>, at: int, c: char) -> bool {
    0 <= at < s.len() && s[at] == c
}

/// How many hash signs `s` starts with.
pub open spec fn hash_run(s: Seq<char>) -> nat {
    leading(s, CharClass::Only('#'))
}

/// The last character of `s` that is not white space.
pub open spec fn last_solid(s: Seq<char>) -> Option<char>
    decreases s.len(),
{
    if s.len() == 0 {
        None
    } else if whitespace(s.last()) {
        last_solid(s.drop_last())
    } else {
        Some(s.last())
    }
}

/// Whether a slash after `c` starts a regular expression.
pub open spec fn precedes_pattern(c: char) -> bool {
    c == '(' || c == '[' || c == '{' || c == '=' || c == ':' || c == ',' || c == ';' || c == '!'
        || c == '&' || c == '|' || c == '?' || c == '+' || c == '-'
}

/// Whether a slash after the code `s` starts a regular expression: nothing
/// stands before it, or an opening or an operator does.
pub open spec fn expects_pattern(s: Seq<char>) -> bool {
    match last_solid(s) {
        Some(c) => precedes_pattern(c),
        None => true,
    }
}

/// Whether `s` runs on to a closing single quote in the same line, with one
/// to eight unescaped characters before it, `count` of which are read.
pub open spec fn char_body(s: Seq<char>, escaped: bool, count: nat) -> bool
    decreases s.len(),
{
    if s.len() == 0 || s[0] == '\n' {
        false
    } else if escaped {
        char_body(s.skip(1), false, count)
    } else if s[0] == '\\' {
        char_body(s.skip(1), true, count)
    } else if s[0] == '\'' {
        0 < count <= 8
    } else if count >= 8 {
        false
    } else {
        char_body(s.skip(1), false, count + 1)
    }
}

/// Whether `c` is an ASCII letter.
pub open spec fn ascii_letter(c: char) -> bool {
    ('a' <= c && c <= 'z') || ('A' <= c && c <= 'Z')
}

/// Whether what follows a single quote reads as a character literal rather
/// than as a lifetime.
pub open spec fn char_literal(s: Seq<char>) -> bool {
    s.len() > 0 && s[0] != '\n' && !ascii_letter(s[0]) && s[0] != '_' && char_body(s, false, 0)
}

/// A region after a line break: comments to the end of the line are over,
/// and a backslash escapes no line break.
pub open spec fn after_newline(region: Region) -> Region {
    match region {
        Region::LineComment => Region::Code,
        Region::Quoted { quote, .. } => Region::Quoted { quote, escaped: false },
        Region::Template { .. } => Region::Template { escaped: false },
        Region::Pattern { .. } => Region::Pattern { escaped: false },
        other => other,
    }
}

/// The step at the start of `s` in code of a C-like language, where `out` is
/// the masked text so far: the next region, how many characters are read,
/// and whether they are kept.
pub open spec fn c_code_step(s: Seq<char>, out: Seq<char>, options: CLikeMaskOptions) -> (
    Region,
    nat,
    bool,
) {
    let c = s[0];
    let hashes = hash_run(s.skip(1));
    if c == '/' && char_at(s, 1, '/') {
        (Region::LineComment, 2, false)
    } else if c == '/' && char_at(s, 1, '*') {
        (Region::BlockComment { depth: 1 }, 2, false)
    } else if options.rust_raw_strings && c == 'r' && char_at(s, 1 + hashes as int, '"') {
        (Region::Raw { hashes: hashes as usize }, hashes + 2, false)
    } else if options.template_literals && c == '`' {
        (Region::Template { escaped: false }, 1, false)
    } else if options.regex_literals && c == '/' && expects_pattern(out) {
        (Region::Pattern { escaped: false }, 1, false)
    } else if c == '"' || (c == '\'' && (options.single_quote_strings || char_literal(s.skip(1)))) {
        (Region::Quoted { quote: c, escaped: false }, 1, false)
    } else {
        (Region::Code, 1, true)
    }
}

/// The step at the start of `s` in Python code.
pub open spec fn python_code_step(s: Seq<char>) -> (Region, nat, bool) {
    let c = s[0];
    if c == '#' {
        (Region::LineComment, 1, false)
    } else if c == '"' || c == '\'' {
        if char_at(s, 1, c) && char_at(s, 2, c) {
            (Region::Triple { quote: c }, 3, false)
        } else {
            (Region::Quoted { quote: c, escaped: false }, 1, false)
        }
    } else {
        (Region::Code, 1, true)
    }
}

/// The step at the start of `s` in JSON, or in a configuration file with
/// hash comments and single-quoted strings.
pub open spec fn json_code_step(s: Seq<char>, hash_comments: bool) -> (Region, nat, bool) {
    let c = s[0];
    if hash_comments && c == '#' {
        (Region::LineComment, 1, false)
    } else if c == '"' || (hash_comments && c == '\'') {
        (Region::Quoted { quote: c, escaped: false }, 1, false)
    } else {
        (Region::Code, 1, true)
    }
}

/// The step at the start of `s` in markup.
pub open spec fn markup_code_step(s: Seq<char>) -> (Region, nat, bool) {
    let c = s[0];
    if c == '<' && char_at(s, 1, '!') && char_at(s, 2, '-') && char_at(s, 3, '-') {
        (Region::MarkupComment, 4, false)
    } else if c == '"' || c == '\'' {
        (Region::Quoted { quote: c, escaped: false }, 1, false)
    } else {
        (Region::Code, 1, true)
    }
}

/// Whether a backslash escapes the next character of a quoted text.
pub open spec fn has_escapes(syntax: Syntax) -> bool {
    !(syntax is HtmlXml)
}

/// The step at the start of `s`, which is not empty: the next region, how
/// many characters are read, and whether they are kept or blanked.
pub open spec fn mask_step(syntax: Syntax, region: Region, s: Seq<char>, out: Seq<char>) -> (
    Region,
    nat,
    bool,
) {
    let c = s[0];
    if c == '\n' {
        (after_newline(region), 1, true)
    } else {
        match region {
            Region::Code => match syntax {
                Syntax::CLike(options) => c_code_step(s, out, options),
                Syntax::Python => python_code_step(s),
                Syntax::JsonLike { hash_comments } => json_code_step(s, hash_comments),
                Syntax::HtmlXml => markup_code_step(s),
            },
            Region::Quoted { quote, escaped } => if escaped {
                (Region::Quoted { quote, escaped: false }, 1, false)
            } else if has_escapes(syntax) && c == '\\' {
                (Region::Quoted { quote, escaped: true }, 1, false)
            } else if c == quote {
                (Region::Code, 1, false)
            } else {
                (region, 1, false)
            },
            Region::Triple { quote } => if c == quote && char_at(s, 1, quote) && char_at(
                s,
                2,
                quote,
            ) {
                (Region::Code, 3, false)
            } else {
                (region, 1, false)
            },
            Region::Raw { hashes } => if c == '"' && hash_run(s.skip(1)) >= hashes {
                (Region::Code, (1 + hashes) as nat, false)
            } else {
                (region, 1, false)
            },
            Region::Template { escaped } => if escaped {
                (Region::Template { escaped: false }, 1, false)
            } else if c == '\\' {
                (Region::Template { escaped: true }, 1, false)
            } else if c == '`' {
                (Region::Code, 1, false)
            } else {
                (region, 1, false)
            },
            Region::Pattern { escaped } => if escaped {
                (Region::Pattern { escaped: false }, 1, false)
            } else if c == '\\' {
                (Region::Pattern { escaped: true }, 1, false)
            } else if c == '/' {
                (Region::Code, 1, false)
            } else {
                (region, 1, false)
            },
            Region::LineComment => (region, 1, false),
            Region::BlockComment { depth } => if c == '/' && char_at(s, 1, '*') {
                (Region::BlockComment { depth: (depth + 1) as usize }, 2, false)
            } else if c == '*' && char_at(s, 1, '/') {
                if depth <= 1 {
                    (Region::Code, 2, false)
                } else {
                    (Region::BlockComment { depth: (depth - 1) as usize }, 2, false)
                }
            } else {
                (region, 1, false)
            },
            Region::MarkupComment => if c == '-' && char_at(s, 1, '-') && char_at(s, 2, '>') {
                (Region::Code, 3, false)
            } else {
                (region, 1, false)
            },
        }
    }
}

/// A row of spaces.
pub open spec fn spaces(n: nat) -> Seq<char> {
    Seq::new(n, |i: int| ' ')
}

/// What a step writes: the character that it keeps, or as many spaces as
/// it reads characters.
pub open spec fn written(s: Seq<char>, take: nat, keep: bool) -> Seq<char> {
    if keep {
        seq![s[0]]
    } else {
        spaces(take)
    }
}

/// The masked text, when `s` is left to read in `region` and `out` is
/// written.
pub open spec fn mask_from(syntax: Syntax, region: Region, s: Seq<char>, out: Seq<char>) -> Seq<
    char,
>
    decreases s.len(),
{
    if s.len() == 0 {
        out
    } else {
        let (next, take, keep) = mask_step(syntax, region, s, out);
        if 1 <= take <= s.len() {
            mask_from(syntax, next, s.skip(take as int), out + written(s, take, keep))
        } else {
            out
        }
    }
}

/// A text with all that is not code in the given syntax blanked.
pub open spec fn masked_as(syntax: Syntax, s: Seq<char>) -> Seq<char> {
    mask_from(syntax, Region::Code, s, Seq::empty())
}

/// What each step does: it reads at least one character and no more than
/// there are, keeps single characters only, and blanks no line break.
proof fn lemma_step(syntax: Syntax, region: Region, s: Seq<char>, out: Seq<char>)
    requires
        s.len() > 0,
    ensures
        ({
            let (next, take, keep) = mask_step(syntax, region, s, out);
            &&& 1 <= take <= s.len()
            &&& keep ==> take == 1
            &&& !keep ==> forall|j: int| 0 <= j < take ==> s[j] != '\n'
        }),
{
    let rest = s.skip(1);
    lemma_trim_bounds(rest, CharClass::Only('#'));
    let (next, take, keep) = mask_step(syntax, region, s, out);
    if s[0] != '\n' && !keep {
        assert forall|j: int| 0 <= j < take implies s[j] != '\n' by {
            if j > 0 {
                assert(s[j] == rest[j - 1]);
                if j - 1 < hash_run(rest) {
                    assert(CharClass::Only('#').has(rest[j - 1]));
                }
            }
        }
    }
}

/// A mask keeps what is written, and of what it reads it keeps the length,
/// the line breaks, and every character that it does not blank.
proof fn lemma_mask_from(syntax: Syntax, region: Region, s: Seq<char>, out: Seq<char>)
    ensures
        ({
            let r = mask_from(syntax, region, s, out);
            &&& r.len() == out.len() + s.len()
            &&& r.take(out.len() as int) == out
            &&& forall|j: int|
                0 <= j < s.len() ==> (r[out.len() + j] == #[trigger] s[j] || (s[j] != '\n' && r[out.len()
                    + j] == ' '))
        }),
    decreases s.len(),
{
    let r = mask_from(syntax, region, s, out);
    if s.len() == 0 {
        assert(r.take(out.len() as int) =~= out);
    } else {
        lemma_step(syntax, region, s, out);
        let (next, take, keep) = mask_step(syntax, region, s, out);
        let more = written(s, take, keep);
        let out2 = out + more;
        let rest = s.skip(take as int);
        lemma_mask_from(syntax, next, rest, out2);
        assert(more.len() == take);
        assert(r.take(out.len() as int) =~= out) by {
            assert forall|j: int| 0 <= j < out.len() implies r[j] == out[j] by {
                assert(r.take(out2.len() as int)[j] == out2[j]);
            }
        }
        assert forall|j: int| 0 <= j < s.len() implies (r[out.len() + j] == #[trigger] s[j] || (s[j]
            != '\n' && r[out.len() + j] == ' ')) by {
            if j < take {
                assert(r.take(out2.len() as int)[out.len() + j] == out2[out.len() + j]);
                assert(out2[out.len() + j] == more[j]);
            } else {
                assert(rest[j - take] == s[j]);
            }
        }
    }
}

/// A masked text has the length of the text, its line breaks where the text
/// has them, and at every place the character of the text or a space.
pub proof fn law_mask_keeps_positions(syntax: Syntax, s: Seq<char>)
    ensures
        masked_as(syntax, s).len() == s.len(),
        forall|j: int|
            0 <= j < s.len() ==> (#[trigger] masked_as(syntax, s)[j] == s[j] || masked_as(syntax, s)[j]
                == ' '),
        forall|j: int|
            0 <= j < s.len() ==> (#[trigger] masked_as(syntax, s)[j] == '\n' <==> s[j] == '\n'),
{
    lemma_mask_from(syntax, Region::Code, s, Seq::empty());
    let r = masked_as(syntax, s);
    assert forall|j: int| 0 <= j < s.len() implies (#[trigger] r[j] == s[j] || (s[j] != '\n' && r[j]
        == ' ')) by {
        assert(s[j] == s[j]);
        assert(r[Seq::<char>::empty().len() + j] == r[j]);
    }
}

// Executable steps. Each takes the whole text and the position `i`.

fn at(chars: &Vec<char>, i: usize, offset: usize, c: char) -> (r: bool)
    requires
        i <= chars.len(),
    ensures
        r == char_at(chars@.skip(i as int), offset as int, c),
{
    offset < chars.len() - i && chars[i + offset] == c
}

fn count_hashes(chars: &Vec<char>, start: usize) -> (r: usize)
    requires
        start <= chars.len(),
    ensures
        r == hash_run(chars@.skip(start as int)),
        start + r <= chars.len(),
{
    let mut i: usize = start;
    while i < chars.len() && chars[i] == '#'
        invariant
            start <= i <= chars.len(),
            forall|j: int| start <= j < i ==> chars@[j] == '#',
        decreases chars.len() - i,
    {
        i += 1;
    }
    proof {
        lemma_leading(chars@.skip(start as int), CharClass::Only('#'), (i - start) as nat);
    }
    i - start
}

/// Whether a slash after the masked text `output` starts a regular
/// expression.
pub fn is_likely_regex_literal(output: &Vec<char>) -> (r: bool)
    ensures
        r == expects_pattern(output@),
{
    let mut end: usize = output.len();
    assert(output@.take(end as int) =~= output@);
    while end > 0 && is_whitespace(output[end - 1])
        invariant
            end <= output.len(),
            last_solid(output@.take(end as int)) == last_solid(output@),
        decreases end,
    {
        assert(output@.take(end as int).drop_last() =~= output@.take(end - 1));
        end -= 1;
    }
    if end == 0 {
        true
    } else {
        let c = output[end - 1];
        assert(output@.take(end as int).last() == c);
        c == '(' || c == '[' || c == '{' || c == '=' || c == ':' || c == ',' || c == ';' || c == '!'
            || c == '&' || c == '|' || c == '?' || c == '+' || c == '-'
    }
}

/// Whether the text from position `start` on, which follows a single quote,
/// reads as a character literal.
pub fn is_likely_char_literal(chars: &Vec<char>, start: usize) -> (r: bool)
    requires
        start <= chars.len(),
    ensures
        r == char_literal(chars@.skip(start as int)),
{
    if start == chars.len() {
        return false;
    }
    let first = chars[start];
    if first == '\n' || ('a' <= first && first <= 'z') || ('A' <= first && first <= 'Z') || first
        == '_' {
        return false;
    }
    let mut escaped = false;
    let mut body_chars: usize = 0;
    let mut i: usize = start;
    while i < chars.len()
        invariant
            start <= i <= chars.len(),
            body_chars <= 8,
            char_body(chars@.skip(i as int), escaped, body_chars as nat) == char_body(
                chars@.skip(start as int),
                false,
                0,
            ),
        decreases chars.len() - i,
    {
        let c = chars[i];
        assert(chars@.skip(i as int).skip(1) =~= chars@.skip(i + 1));
        assert(chars@.skip(i as int)[0] == c);
        if c == '\n' {
            return false;
        }
        if escaped {
            escaped = false;
        } else if c == '\\' {
            escaped = true;
        } else if c == '\'' {
            return body_chars > 0;
        } else if body_chars >= 8 {
            return false;
        } else {
            body_chars += 1;
        }
        i += 1;
    }
    false
}

fn next_c_code(chars: &Vec<char>, i: usize, out: &Vec<char>, options: CLikeMaskOptions) -> (r: (
    Region,
    usize,
    bool,
))
    requires
        i < chars.len(),
    ensures
        (r.0, r.1 as nat, r.2) == c_code_step(chars@.skip(i as int), out@, options),
{
    let c = chars[i];
    assert(chars@.skip(i as int)[0] == c);
    assert(chars@.skip(i as int).skip(1) =~= chars@.skip(i + 1));
    if c == '/' && at(chars, i, 1, '/') {
        return (Region::LineComment, 2, false);
    }
    if c == '/' && at(chars, i, 1, '*') {
        return (Region::BlockComment { depth: 1 }, 2, false);
    }
    if options.rust_raw_strings && c == 'r' {
        let hashes = count_hashes(chars, i + 1);
        if at(chars, i, 1 + hashes, '"') {
            return (Region::Raw { hashes }, hashes + 2, false);
        }
    }
    if options.template_literals && c == '`' {
        return (Region::Template { escaped: false }, 1, false);
    }
    if options.regex_literals && c == '/' && is_likely_regex_literal(out) {
        return (Region::Pattern { escaped: false }, 1, false);
    }
    if c == '"' || (c == '\'' && (options.single_quote_strings || is_likely_char_literal(
        chars,
        i + 1,
    ))) {
        return (Region::Quoted { quote: c, escaped: false }, 1, false);
    }
    (Region::Code, 1, true)
}

fn next_code(syntax: Syntax, chars: &Vec<char>, i: usize, out: &Vec<char>) -> (r: (
    Region,
    usize,
    bool,
))
    requires
        i < chars.len(),
        chars@[i as int] != '\n',
    ensures
        (r.0, r.1 as nat, r.2) == mask_step(syntax, Region::Code, chars@.skip(i as int), out@),
{
    let c = chars[i];
    assert(chars@.skip(i as int)[0] == c);
    match syntax {
        Syntax::CLike(options) => next_c_code(chars, i, out, options),
        Syntax::Python => {
            if c == '#' {
                (Region::LineComment, 1, false)
            } else if c == '"' || c == '\'' {
                if at(chars, i, 1, c) && at(chars, i, 2, c) {
                    (Region::Triple { quote: c }, 3, false)
                } else {
                    (Region::Quoted { quote: c, escaped: false }, 1, false)
                }
            } else {
                (Region::Code, 1, true)
            }
        },
        Syntax::JsonLike { hash_comments } => {
            if hash_comments && c == '#' {
                (Region::LineComment, 1, false)
            } else if c == '"' || (hash_comments && c == '\'') {
                (Region::Quoted { quote: c, escaped: false }, 1, false)
            } else {
                (Region::Code, 1, true)
            }
        },
        Syntax::HtmlXml => {
            if c == '<' && at(chars, i, 1, '!') && at(chars, i, 2, '-') && at(chars, i, 3, '-') {
                (Region::MarkupComment, 4, false)
            } else if c == '"' || c == '\'' {
                (Region::Quoted { quote: c, escaped: false }, 1, false)
            } else {
                (Region::Code, 1, true)
            }
        },
    }
}

fn next_step(syntax: Syntax, region: Region, chars: &Vec<char>, i: usize, out: &Vec<char>) -> (r: (
    Region,
    usize,
    bool,
))
    requires
        i < chars.len(),
        region matches Region::BlockComment { depth } ==> depth <= i,
    ensures
        (r.0, r.1 as nat, r.2) == mask_step(syntax, region, chars@.skip(i as int), out@),
        r.0 matches Region::BlockComment { depth } ==> depth <= i + 1,
{
    let c = chars[i];
    assert(chars@.skip(i as int)[0] == c);
    assert(chars@.skip(i as int).skip(1) =~= chars@.skip(i + 1));
    if c == '\n' {
        let next = match region {
            Region::LineComment => Region::Code,
            Region::Quoted { quote, escaped: _ } => Region::Quoted { quote, escaped: false },
            Region::Template { escaped: _ } => Region::Template { escaped: false },
            Region::Pattern { escaped: _ } => Region::Pattern { escaped: false },
            other => other,
        };
        return (next, 1, true);
    }
    match region {
        Region::Code => next_code(syntax, chars, i, out),
        Region::Quoted { quote, escaped } => {
            if escaped {
                (Region::Quoted { quote, escaped: false }, 1, false)
            } else if !matches!(syntax, Syntax::HtmlXml) && c == '\\' {
                (Region::Quoted { quote, escaped: true }, 1, false)
            } else if c == quote {
                (Region::Code, 1, false)
            } else {
                (region, 1, false)
            }
        },
        Region::Triple { quote } => {
            if c == quote && at(chars, i, 1, quote) && at(chars, i, 2, quote) {
                (Region::Code, 3, false)
            } else {
                (region, 1, false)
            }
        },
        Region::Raw { hashes } => {
            if c == '"' && count_hashes(chars, i + 1) >= hashes {
                (Region::Code, 1 + hashes, false)
            } else {
                (region, 1, false)
            }
        },
        Region::Template { escaped } => {
            if escaped {
                (Region::Template { escaped: false }, 1, false)
            } else if c == '\\' {
                (Region::Template { escaped: true }, 1, false)
            } else if c == '`' {
                (Region::Code, 1, false)
            } else {
                (region, 1, false)
            }
        },
        Region::Pattern { escaped } => {
            if escaped {
                (Region::Pattern { escaped: false }, 1, false)
            } else if c == '\\' {
                (Region::Pattern { escaped: true }, 1, false)
            } else if c == '/' {
                (Region::Code, 1, false)
            } else {
                (region, 1, false)
            }
        },
        Region::LineComment => (region, 1, false),
        Region::BlockComment { depth } => {
            if c == '/' && at(chars, i, 1, '*') {
                (Region::BlockComment { depth: depth + 1 }, 2, false)
            } else if c == '*' && at(chars, i, 1, '/') {
                if depth <= 1 {
                    (Region::Code, 2, false)
                } else {
                    (Region::BlockComment { depth: depth - 1 }, 2, false)
                }
            } else {
                (region, 1, false)
            }
        },
        Region::MarkupComment => {
            if c == '-' && at(chars, i, 1, '-') && at(chars, i, 2, '>') {
                (Region::Code, 3, false)
            } else {
                (region, 1, false)
            }
        },
    }
}

/// Blanks all that is not code in the given syntax.
pub fn mask_syntax(syntax: Syntax, text: &str) -> (r: String)
    ensures
        r@ == masked_as(syntax, text@),
{
    let chars = to_chars(text);
    let mut out: Vec<char> = Vec::new();
    let mut region = Region::Code;
    let mut i: usize = 0;
    assert(chars@.skip(0) =~= chars@);
    while i < chars.len()
        invariant
            i <= chars.len(),
            region matches Region::BlockComment { depth } ==> depth <= i,
            mask_from(syntax, region, chars@.skip(i as int), out@) == masked_as(syntax, text@),
        decreases chars.len() - i,
    {
        let ghost rest = chars@.skip(i as int);
        let ghost before = out@;
        let (next, take, keep) = next_step(syntax, region, &chars, i, &out);
        proof {
            lemma_step(syntax, region, rest, out@);
            assert(rest.skip(take as int) =~= chars@.skip(i + take));
        }
        if keep {
            out.push(chars[i]);
        } else {
            let mut n: usize = 0;
            while n < take
                invariant
                    n <= take,
                    out@ == before + spaces(n as nat),
                decreases take - n,
            {
                out.push(' ');
                n += 1;
                assert(out@ =~= before + spaces(n as nat));
            }
        }
        assert(out@ =~= before + written(rest, take as nat, keep));
        region = next;
        i += take;
    }
    text_of(&out)
}

/// Blanks strings, comments and other literals of a C-like language.
pub fn mask_c_like(text: &str, options: CLikeMaskOptions) -> (r: String)
    ensures
        r@ == masked_as(Syntax::CLike(options), text@),
{
    mask_syntax(Syntax::CLike(options), text)
}

/// Blanks Python strings and comments.
pub fn mask_python(text: &str) -> (r: String)
    ensures
        r@ == masked_as(Syntax::Python, text@),
{
    mask_syntax(Syntax::Python, text)
}

/// Blanks double-quoted strings and, where the format has them, hash
/// comments and single-quoted strings.
pub fn mask_json_like(text: &str, hash_comments: bool) -> (r: String)
    ensures
        r@ == masked_as(Syntax::JsonLike { hash_comments }, text@),
{
    mask_syntax(Syntax::JsonLike { hash_comments }, text)
}

/// Blanks markup comments and quoted attribute values.
pub fn mask_html_xml(text: &str) -> (r: String)
    ensures
        r@ == masked_as(Syntax::HtmlXml, text@),
{
    mask_syntax(Syntax::HtmlXml, text)
}

// Markdown goes by lines.

/// Whether a line opens or closes a fenced block.
pub open spec fn fence_line(line: Seq<char>) -> bool {
    let start = trimmed_start(line, CharClass::Space);
    has_prefix(start, "```"@) || has_prefix(start, "~~~"@)
}

/// The lines with the fences, and all between them, blanked.
pub open spec fn unfenced(lines: Seq<Seq<char>>, in_fence: bool) -> Seq<Seq<char>>
    decreases lines.len(),
{
    if lines.len() == 0 {
        Seq::empty()
    } else {
        let fence = fence_line(lines[0]);
        let blank = fence || in_fence;
        seq![
            if blank {
                spaces(utf8_len(lines[0]))
            } else {
                lines[0]
            },
        ] + unfenced(lines.skip(1), fence != in_fence)
    }
}

/// A Markdown text with its fenced blocks blanked: as many spaces as a
/// line has bytes.
pub open spec fn masked_markdown(s: Seq<char>) -> Seq<char> {
    let body = joined(unfenced(lines_of(s), false), "\n"@);
    if ends_char(s, '\n') {
        body + seq!['\n']
    } else {
        body
    }
}

/// Blanks the fenced blocks of a Markdown text.
pub fn mask_markdown(text: &str) -> (r: String)
    ensures
        r@ == masked_markdown(text@),
{
    let all = lines(text);
    let mut out: Vec<String> = Vec::new();
    let mut in_fence = false;
    let mut i: usize = 0;
    assert(all.deep_view().skip(0) =~= all.deep_view());
    assert(out.deep_view() + unfenced(all.deep_view(), false) =~= unfenced(
        all.deep_view(),
        false,
    ));
    while i < all.len()
        invariant
            i <= all.len(),
            out.deep_view() + unfenced(all.deep_view().skip(i as int), in_fence) == unfenced(
                all.deep_view(),
                false,
            ),
        decreases all.len() - i,
    {
        let ghost rest = all.deep_view().skip(i as int);
        let ghost before = out.deep_view();
        let line = all[i].as_str();
        assert(rest[0] == line@);
        assert(rest.skip(1) =~= all.deep_view().skip(i + 1));
        let start = trim_start(line);
        let fence = starts_with(start.as_str(), "```") || starts_with(start.as_str(), "~~~");
        if fence || in_fence {
            push_item(&mut out, repeat_char(' ', byte_len(line)));
            assert(out.deep_view().last() =~= spaces(utf8_len(rest[0])));
        } else {
            push_item(&mut out, line.to_owned());
        }
        assert(before + unfenced(rest, in_fence) =~= out.deep_view() + unfenced(
            rest.skip(1),
            fence != in_fence,
        ));
        if fence {
            in_fence = !in_fence;
        }
        i += 1;
    }
    assert(all.deep_view().skip(i as int) =~= Seq::<Seq<char>>::empty());
    assert(out.deep_view() + Seq::<Seq<char>>::empty() =~= out.deep_view());
    let mut body = join(&out, "\n");
    if ends_with_char(text, '\n') {
        body.push('\n');
        assert(body@ =~= joined(out.deep_view(), "\n"@) + seq!['\n']);
    }
    body
}

// Line structure.

proof fn lemma_same_breaks(a: Seq<char>, b: Seq<char>)
    requires
        a.len() == b.len(),
        forall|j: int| 0 <= j < a.len() ==> (#[trigger] a[j] == '\n' <==> b[j] == '\n'),
    ensures
        lines_of(a).len() == lines_of(b).len(),
    decreases a.len(),
{
    lemma_position_bounds(a, '\n');
    let p = position_of(a, '\n');
    assert forall|j: int| 0 <= j < p implies b[j] != '\n' by {
        assert(a[j] != '\n');
    }
    if p < a.len() {
        assert(a[p as int] == '\n');
    }
    lemma_position(b, '\n', p);
    if p < a.len() {
        let x = a.skip(p as int + 1);
        let y = b.skip(p as int + 1);
        assert forall|j: int| 0 <= j < x.len() implies (#[trigger] x[j] == '\n' <==> y[j] == '\n') by {
            assert(x[j] == a[p + 1 + j]);
            assert(y[j] == b[p + 1 + j]);
        }
        lemma_same_breaks(x, y);
    }
}

/// Masking by character keeps the number of lines.
pub proof fn law_mask_keeps_lines(syntax: Syntax, s: Seq<char>)
    ensures
        lines_of(masked_as(syntax, s)).len() == lines_of(s).len(),
{
    law_mask_keeps_positions(syntax, s);
    lemma_same_breaks(masked_as(syntax, s), s);
}

spec fn one_line(s: Seq<char>) -> bool {
    forall|j: int| 0 <= j < s.len() ==> s[j] != '\n'
}

/// No line holds a line break, and the last line of a text that does not
/// end with a line break is not empty.
proof fn lemma_lines_shape(s: Seq<char>)
    ensures
        forall|i: int| 0 <= i < lines_of(s).len() ==> one_line(#[trigger] lines_of(s)[i]),
        s.len() > 0 ==> lines_of(s).len() > 0,
        s.len() > 0 && !ends_char(s, '\n') ==> lines_of(s).last().len() > 0,
    decreases s.len(),
{
    lemma_position_bounds(s, '\n');
    let p = position_of(s, '\n');
    if s.len() > 0 && p < s.len() {
        let rest = s.skip(p as int + 1);
        lemma_lines_shape(rest);
        let all = lines_of(s);
        assert forall|i: int| 0 <= i < all.len() implies one_line(#[trigger] all[i]) by {
            if i > 0 {
                assert(all[i] == lines_of(rest)[i - 1]);
            } else {
                assert(all[0] == without_return(s.take(p as int)));
            }
        }
        if !ends_char(s, '\n') {
            assert(rest.len() > 0);
            assert(rest.last() == s.last());
            assert(all.last() == lines_of(rest).last());
        }
    }
}

proof fn lemma_unfenced(lines: Seq<Seq<char>>, in_fence: bool)
    requires
        forall|i: int| 0 <= i < lines.len() ==> one_line(#[trigger] lines[i]),
    ensures
        unfenced(lines, in_fence).len() == lines.len(),
        forall|i: int|
            0 <= i < lines.len() ==> one_line(#[trigger] unfenced(lines, in_fence)[i]) && (
            lines[i].len() > 0 ==> unfenced(lines, in_fence)[i].len() > 0),
    decreases lines.len(),
{
    if lines.len() > 0 {
        let fence = fence_line(lines[0]);
        let rest = lines.skip(1);
        assert forall|i: int| 0 <= i < rest.len() implies one_line(#[trigger] rest[i]) by {
            assert(rest[i] == lines[i + 1]);
        }
        lemma_unfenced(rest, fence != in_fence);
        let all = unfenced(lines, in_fence);
        assert forall|i: int| 0 <= i < lines.len() implies one_line(#[trigger] all[i]) && (
        lines[i].len() > 0 ==> all[i].len() > 0) by {
            if i > 0 {
                assert(all[i] == unfenced(rest, fence != in_fence)[i - 1]);
                assert(rest[i - 1] == lines[i]);
            } else {
                assert(one_line(lines[0]));
            }
        }
    }
}

proof fn lemma_joined_front(parts: Seq<Seq<char>>, sep: Seq<char>)
    requires
        parts.len() > 1,
    ensures
        joined(parts, sep) == parts[0] + sep + joined(parts.skip(1), sep),
    decreases parts.len(),
{
    if parts.len() == 2 {
        assert(parts.drop_last()[0] == parts[0]);
        assert(joined(parts.drop_last(), sep) == parts[0]);
        assert(parts.skip(1)[0] == parts[1]);
        assert(joined(parts.skip(1), sep) == parts[1]);
        assert(parts.last() == parts[1]);
    } else {
        lemma_joined_front(parts.drop_last(), sep);
        assert(parts.drop_last().skip(1) =~= parts.skip(1).drop_last());
        assert(parts.skip(1).last() == parts.last());
        assert(joined(parts, sep) =~= parts[0] + sep + joined(parts.skip(1), sep));
    }
}

proof fn lemma_joined_lines(parts: Seq<Seq<char>>, ended: bool)
    requires
        parts.len() > 0,
        forall|i: int| 0 <= i < parts.len() ==> one_line(#[trigger] parts[i]),
        !ended ==> parts.last().len() > 0,
    ensures
        lines_of(
            joined(parts, "\n"@) + if ended {
                seq!['\n']
            } else {
                Seq::empty()
            },
        ).len() == parts.len(),
    decreases parts.len(),
{
    reveal_strlit("\n");
    let tail = if ended {
        seq!['\n']
    } else {
        Seq::<char>::empty()
    };
    let s = joined(parts, "\n"@) + tail;
    let first = parts[0];
    assert(one_line(first));
    if parts.len() == 1 {
        lemma_position(s, '\n', first.len());
        if ended {
            assert(s.skip(first.len() as int + 1) =~= Seq::<char>::empty());
            assert(lines_of(Seq::<char>::empty()).len() == 0);
            assert(lines_of(s) == seq![without_return(s.take(first.len() as int))] + lines_of(
                s.skip(first.len() as int + 1),
            ));
        } else {
            assert(lines_of(s) == seq![s]);
        }
    } else {
        lemma_joined_front(parts, "\n"@);
        let rest = parts.skip(1);
        assert forall|i: int| 0 <= i < rest.len() implies one_line(#[trigger] rest[i]) by {
            assert(rest[i] == parts[i + 1]);
        }
        lemma_joined_lines(rest, ended);
        assert forall|j: int| 0 <= j < first.len() implies s[j] != '\n' by {
            assert(s[j] == first[j]);
        }
        assert(s[first.len() as int] == '\n');
        lemma_position(s, '\n', first.len());
        assert(s.skip(first.len() as int + 1) =~= joined(rest, "\n"@) + tail);
        assert(lines_of(s) == seq![without_return(s.take(first.len() as int))] + lines_of(
            joined(rest, "\n"@) + tail,
        ));
    }
}

/// Blanking fenced blocks keeps the number of lines.
pub proof fn law_markdown_keeps_lines(s: Seq<char>)
    ensures
        lines_of(masked_markdown(s)).len() == lines_of(s).len(),
{
    lemma_lines_shape(s);
    lemma_unfenced(lines_of(s), false);
    let parts = unfenced(lines_of(s), false);
    if s.len() > 0 {
        if !ends_char(s, '\n') {
            assert(lines_of(s).last() == lines_of(s)[lines_of(s).len() - 1]);
            assert(parts[parts.len() - 1].len() > 0);
        }
        lemma_joined_lines(parts, ends_char(s, '\n'));
        if !ends_char(s, '\n') {
            assert(joined(parts, "\n"@) + Seq::<char>::empty() =~= joined(parts, "\n"@));
        }
    }
}

} // verus!
