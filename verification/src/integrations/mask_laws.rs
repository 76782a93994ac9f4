//! What holds of all masks: code is kept, and what is in comments and strings
//! is blanked.
use super::check_laws::on_line;
use super::mask::{char_at, mask_from, mask_step, masked_as, plain_c, spaces, Region, Syntax};
use super::post_edit_check::{
    delimiter_findings, masked_for, rust_options, scan_findings, script_options, text_findings,
    FindingView, QuickCheckLanguage, Severity,
};
use crate::split::lines_of;
use crate::text::{lemma_leading, CharClass};
use vstd::prelude::*;
use vstd::string::*;

verus! {

/// Whether a text holds nothing that could start a comment or a string in any
/// of the languages.
pub open spec fn plain_code(s: Seq<char>) -> bool {
    forall|i: int|
        0 <= i < s.len() ==> #[trigger] s[i] != '"' && s[i] != '\'' && s[i] != '/' && s[i] != '`'
            && s[i] != '#' && s[i] != '<'
}

proof fn lemma_code_step(syntax: Syntax, s: Seq<char>, rest: Seq<char>, out: Seq<char>)
    requires
        s.len() > 0,
        plain_code(s),
        syntax matches Syntax::CLike(options) && options.rust_raw_strings && s[s.len() - 1] == 'r'
            ==> rest.len() == 0 || (rest[0] != '"' && rest[0] != '#'),
    ensures
        mask_step(syntax, Region::Code, s + rest, out) == (Region::Code, 1nat, true),
{
    let all = s + rest;
    assert(all[0] == s[0]);
    let c = s[0];
    if let Syntax::CLike(options) = syntax {
        if options.rust_raw_strings && c == 'r' {
            let behind = all.skip(1);
            if s.len() > 1 {
                assert(behind[0] == s[1]);
                lemma_leading(behind, CharClass::Only('#'), 0);
                assert(!char_at(all, 1, '"'));
            } else if rest.len() > 0 {
                assert(behind[0] == rest[0]);
                lemma_leading(behind, CharClass::Only('#'), 0);
                assert(all[1] == rest[0]);
                assert(!char_at(all, 1, '"'));
            } else {
                lemma_leading(behind, CharClass::Only('#'), 0);
            }
        }
    }
}

/// Whether a text does not end with the letter that may start a raw string.
pub open spec fn closed_end(s: Seq<char>) -> bool {
    s.len() > 0 ==> s.last() != 'r'
}

proof fn lemma_code_kept(syntax: Syntax, s: Seq<char>, rest: Seq<char>, out: Seq<char>)
    requires
        plain_code(s),
        closed_end(s) || rest.len() == 0,
    ensures
        mask_from(syntax, Region::Code, s + rest, out) == mask_from(
            syntax,
            Region::Code,
            rest,
            out + s,
        ),
    decreases s.len(),
{
    let all = s + rest;
    if s.len() == 0 {
        assert(all =~= rest);
        assert(out + s =~= out);
    } else {
        lemma_code_step(syntax, s, rest, out);
        let tail = s.skip(1);
        assert(plain_code(tail)) by {
            assert forall|i: int| 0 <= i < tail.len() implies #[trigger] tail[i] != '"' && tail[i]
                != '\'' && tail[i] != '/' && tail[i] != '`' && tail[i] != '#' && tail[i] != '<' by {
                assert(tail[i] == s[i + 1]);
            }
        }
        if tail.len() > 0 {
            assert(tail.last() == s.last());
        }
        lemma_code_kept(syntax, tail, rest, out + seq![s[0]]);
        assert(all.skip(1) =~= tail + rest);
        assert(out + seq![s[0]] + tail =~= out + s);
    }
}

/// Code without comments and strings is left as it is, in every language.
pub proof fn law_code_is_kept(s: Seq<char>)
    requires
        plain_code(s),
    ensures
        masked_for(QuickCheckLanguage::Rust, s) == s,
        masked_for(QuickCheckLanguage::JavaScriptLike, s) == s,
        masked_for(QuickCheckLanguage::JsxLike, s) == s,
        masked_for(QuickCheckLanguage::CLike, s) == s,
        masked_for(QuickCheckLanguage::Go, s) == s,
        masked_for(QuickCheckLanguage::JavaLike, s) == s,
        masked_for(QuickCheckLanguage::CSharp, s) == s,
        masked_for(QuickCheckLanguage::GDScript, s) == s,
        masked_for(QuickCheckLanguage::CssLike, s) == s,
        masked_for(QuickCheckLanguage::Python, s) == s,
        masked_for(QuickCheckLanguage::Json, s) == s,
        masked_for(QuickCheckLanguage::Toml, s) == s,
        masked_for(QuickCheckLanguage::Yaml, s) == s,
        masked_for(QuickCheckLanguage::ShellLike, s) == s,
        masked_for(QuickCheckLanguage::HtmlXml, s) == s,
{
    lemma_kept_as(Syntax::CLike(rust_options()), s);
    lemma_kept_as(Syntax::CLike(script_options()), s);
    lemma_kept_as(Syntax::CLike(plain_c()), s);
    lemma_kept_as(Syntax::Python, s);
    lemma_kept_as(Syntax::JsonLike { hash_comments: false }, s);
    lemma_kept_as(Syntax::JsonLike { hash_comments: true }, s);
    lemma_kept_as(Syntax::HtmlXml, s);
}

proof fn lemma_kept_as(syntax: Syntax, s: Seq<char>)
    requires
        plain_code(s),
    ensures
        masked_as(syntax, s) == s,
{
    let e = Seq::<char>::empty();
    lemma_code_kept(syntax, s, e, e);
    assert(s + e =~= s);
    assert(e + s =~= s);
}

/// A debug macro in Rust code is reported on its line, whatever stands around
/// it, in a text without comments and strings.
pub proof fn law_macro_in_code(
    path: Seq<char>,
    text: Seq<char>,
    line: Option<u64>,
    i: int,
    p: Seq<char>,
    q: Seq<char>,
)
    requires
        plain_code(text),
        0 <= i < lines_of(text).len(),
        lines_of(text)[i] == p + "dbg!("@ + q,
    ensures
        text_findings(path, QuickCheckLanguage::Rust, text, line).contains(
            on_line(path, i, Severity::Warning, "debug macro `dbg!` left in Rust file"@),
        ),
{
    law_code_is_kept(text);
    super::check_laws::law_rust_macros_are_reported(path, text, line, i, p, q);
}

// Blanking.

/// Whether all that stands in a text is blanked one by one in a region: it
/// holds no line feed and nothing that ends the region.
spec fn steady(syntax: Syntax, region: Region, c: char) -> bool {
    &&& c != '\n'
    &&& match region {
        Region::Quoted { quote, .. } => c != quote && c != '\\',
        Region::LineComment => true,
        Region::BlockComment { .. } => c != '/' && c != '*',
        Region::Triple { quote } => c != quote,
        Region::Template { .. } => c != '`' && c != '\\',
        Region::MarkupComment => c != '-',
        Region::Raw { .. } => c != '"',
        Region::Pattern { .. } => c != '/' && c != '\\',
        Region::Code => false,
    }
}

spec fn calm_region(region: Region) -> bool {
    match region {
        Region::Quoted { escaped, .. } => !escaped,
        Region::Template { escaped } => !escaped,
        Region::Pattern { escaped } => !escaped,
        _ => true,
    }
}

proof fn lemma_blanked(syntax: Syntax, region: Region, s: Seq<char>, rest: Seq<char>, out: Seq<char>)
    requires
        forall|i: int| 0 <= i < s.len() ==> steady(syntax, region, #[trigger] s[i]),
        calm_region(region),
    ensures
        mask_from(syntax, region, s + rest, out) == mask_from(
            syntax,
            region,
            rest,
            out + spaces(s.len()),
        ),
    decreases s.len(),
{
    let all = s + rest;
    if s.len() == 0 {
        assert(all =~= rest);
        assert(out + spaces(0) =~= out);
    } else {
        assert(all[0] == s[0]);
        assert(steady(syntax, region, s[0]));
        assert(mask_step(syntax, region, all, out) == (region, 1nat, false));
        let tail = s.skip(1);
        assert forall|i: int| 0 <= i < tail.len() implies steady(
            syntax,
            region,
            #[trigger] tail[i],
        ) by {
            assert(tail[i] == s[i + 1]);
        }
        lemma_blanked(syntax, region, tail, rest, out + spaces(1));
        assert(all.skip(1) =~= tail + rest);
        assert(out + spaces(1) + spaces(tail.len()) =~= out + spaces(s.len()));
    }
}

/// Whether a syntax has no literals that depend on the code before them.
spec fn regular(syntax: Syntax) -> bool {
    syntax matches Syntax::CLike(options) ==> !options.regex_literals
}

proof fn lemma_out_in_front(syntax: Syntax, region: Region, s: Seq<char>, out: Seq<char>)
    requires
        regular(syntax),
    ensures
        mask_from(syntax, region, s, out) == out + mask_from(syntax, region, s, Seq::empty()),
    decreases s.len(),
{
    let e = Seq::<char>::empty();
    if s.len() == 0 {
        assert(out + e =~= out);
    } else {
        let (next, take, keep) = mask_step(syntax, region, s, out);
        assert(mask_step(syntax, region, s, out) == mask_step(syntax, region, s, e));
        if 1 <= take <= s.len() {
            let w = super::mask::written(s, take, keep);
            lemma_out_in_front(syntax, next, s.skip(take as int), out + w);
            lemma_out_in_front(syntax, next, s.skip(take as int), e + w);
            let rest = mask_from(syntax, next, s.skip(take as int), e);
            assert(out + w + rest =~= out + (e + w + rest));
        } else {
            assert(out + e =~= out);
        }
    }
}

/// The syntax of Rust, or of C and its relatives.
pub open spec fn c_syntax(rust: bool) -> Syntax {
    Syntax::CLike(
        if rust {
            rust_options()
        } else {
            plain_c()
        },
    )
}

/// In Rust and in C a comment to the end of the line is blanked, and the code
/// around it is kept.
#[verifier::rlimit(40)]
pub proof fn law_line_comment_is_blanked(rust: bool, a: Seq<char>, comment: Seq<char>, b: Seq<char>)
    requires
        plain_code(a),
        !comment.contains('\n'),
    ensures
        masked_as(c_syntax(rust), a + seq!['/', '/'] + comment + seq!['\n'] + b) == a + spaces(
            comment.len() + 2,
        ) + seq!['\n'] + masked_as(c_syntax(rust), b),
{
    let syntax = c_syntax(rust);
    let e = Seq::<char>::empty();
    let tail = seq!['\n'] + b;
    let s = seq!['/', '/'] + comment + tail;
    assert(a + seq!['/', '/'] + comment + seq!['\n'] + b =~= a + s);
    lemma_code_before_slash(syntax, a, s);
    assert(s[0] == '/' && s[1] == '/');
    let rest = comment + tail;
    assert(s.skip(2) =~= rest);
    assert(mask_step(syntax, Region::Code, s, a) == (Region::LineComment, 2nat, false));
    assert forall|i: int| 0 <= i < comment.len() implies steady(
        syntax,
        Region::LineComment,
        #[trigger] comment[i],
    ) by {
        assert(comment.contains(comment[i]));
    }
    lemma_blanked(syntax, Region::LineComment, comment, tail, a + spaces(2));
    assert(tail[0] == '\n');
    assert(tail.skip(1) =~= b);
    let out = a + spaces(2) + spaces(comment.len());
    assert(mask_step(syntax, Region::LineComment, tail, out) == (Region::Code, 1nat, true));
    lemma_out_in_front(syntax, Region::Code, b, out + seq!['\n']);
    assert(out + seq!['\n'] =~= a + spaces(comment.len() + 2) + seq!['\n']);
}

proof fn lemma_code_before_slash(syntax: Syntax, a: Seq<char>, s: Seq<char>)
    requires
        plain_code(a),
        s.len() > 0 ==> s[0] == '/',
    ensures
        mask_from(syntax, Region::Code, a + s, Seq::empty()) == mask_from(
            syntax,
            Region::Code,
            s,
            a,
        ),
    decreases a.len(),
{
    let e = Seq::<char>::empty();
    if a.len() == 0 || a.last() != 'r' {
        lemma_code_kept(syntax, a, s, e);
        assert(e + a =~= a);
    } else {
        let front = a.drop_last();
        lemma_code_before_slash_r(syntax, front, s, e);
        assert(front + seq!['r'] + s =~= a + s);
        assert(e + front + seq!['r'] =~= a);
    }
}

#[verifier::rlimit(40)]
proof fn lemma_code_before_slash_r(syntax: Syntax, front: Seq<char>, s: Seq<char>, out: Seq<char>)
    requires
        plain_code(front),
        s.len() > 0 ==> s[0] == '/',
    ensures
        mask_from(syntax, Region::Code, front + seq!['r'] + s, out) == mask_from(
            syntax,
            Region::Code,
            s,
            out + front + seq!['r'],
        ),
    decreases front.len(),
{
    let all = front + seq!['r'] + s;
    let word = front + seq!['r'];
    assert(plain_code(word)) by {
        assert forall|i: int| 0 <= i < word.len() implies #[trigger] word[i] != '"' && word[i]
            != '\'' && word[i] != '/' && word[i] != '`' && word[i] != '#' && word[i] != '<' by {
            if i < front.len() {
                assert(word[i] == front[i]);
            }
        }
    }
    lemma_code_step(syntax, word, s, out);
    assert(all[0] == word[0]);
    if front.len() == 0 {
        assert(all.skip(1) =~= s);
        assert(out + seq!['r'] =~= out + front + seq!['r']);
    } else {
        let tail = front.skip(1);
        assert(plain_code(tail)) by {
            assert forall|i: int| 0 <= i < tail.len() implies #[trigger] tail[i] != '"' && tail[i]
                != '\'' && tail[i] != '/' && tail[i] != '`' && tail[i] != '#' && tail[i] != '<' by {
                assert(tail[i] == front[i + 1]);
            }
        }
        assert(all.skip(1) =~= tail + seq!['r'] + s);
        lemma_code_before_slash_r(syntax, tail, s, out + seq![front[0]]);
        assert(out + seq![front[0]] + tail + seq!['r'] =~= out + front + seq!['r']);
    }
}

/// In Rust and in C a comment between its signs is blanked, and the code
/// around it is kept.
pub proof fn law_block_comment_is_blanked(
    rust: bool,
    a: Seq<char>,
    comment: Seq<char>,
    b: Seq<char>,
)
    requires
        plain_code(a),
        forall|i: int|
            0 <= i < comment.len() ==> #[trigger] comment[i] != '\n' && comment[i] != '/'
                && comment[i] != '*',
    ensures
        masked_as(c_syntax(rust), a + seq!['/', '*'] + comment + seq!['*', '/'] + b) == a + spaces(
            comment.len() + 4,
        ) + masked_as(c_syntax(rust), b),
{
    let syntax = c_syntax(rust);
    let tail = seq!['*', '/'] + b;
    let s = seq!['/', '*'] + comment + tail;
    assert(a + seq!['/', '*'] + comment + seq!['*', '/'] + b =~= a + s);
    lemma_code_before_slash(syntax, a, s);
    assert(s[0] == '/' && s[1] == '*');
    assert(s.skip(2) =~= comment + tail);
    let region = Region::BlockComment { depth: 1 };
    assert(mask_step(syntax, Region::Code, s, a) == (region, 2nat, false));
    assert forall|i: int| 0 <= i < comment.len() implies steady(
        syntax,
        region,
        #[trigger] comment[i],
    ) by {}
    lemma_blanked(syntax, region, comment, tail, a + spaces(2));
    assert(tail[0] == '*' && tail[1] == '/');
    assert(tail.skip(2) =~= b);
    let out = a + spaces(2) + spaces(comment.len());
    assert(mask_step(syntax, region, tail, out) == (Region::Code, 2nat, false));
    lemma_out_in_front(syntax, Region::Code, b, out + spaces(2));
    assert(out + spaces(2) =~= a + spaces(comment.len() + 4));
}

/// A string is blanked with its quotes, and a quote behind a backslash does
/// not end it; the code around it is kept. This holds of Rust, of C and of
/// JSON.
#[verifier::rlimit(40)]
pub proof fn law_string_is_blanked(
    syntax: Syntax,
    a: Seq<char>,
    s: Seq<char>,
    x: char,
    t: Seq<char>,
    b: Seq<char>,
)
    requires
        syntax == c_syntax(true) || syntax == c_syntax(false) || syntax is JsonLike,
        plain_code(a),
        closed_end(a),
        x != '\n',
        forall|i: int|
            0 <= i < s.len() ==> #[trigger] s[i] != '\n' && s[i] != '"' && s[i] != '\\',
        forall|i: int|
            0 <= i < t.len() ==> #[trigger] t[i] != '\n' && t[i] != '"' && t[i] != '\\',
    ensures
        masked_as(syntax, a + seq!['"'] + s + seq!['"'] + b) == a + spaces(s.len() + 2)
            + masked_as(syntax, b),
        masked_as(syntax, a + seq!['"'] + s + seq!['\\', x] + t + seq!['"'] + b) == a + spaces(
            s.len() + t.len() + 4,
        ) + masked_as(syntax, b),
{
    let e = Seq::<char>::empty();
    let region = Region::Quoted { quote: '"', escaped: false };
    let escaped = Region::Quoted { quote: '"', escaped: true };
    assert forall|i: int| 0 <= i < s.len() implies steady(syntax, region, #[trigger] s[i]) by {}
    assert forall|i: int| 0 <= i < t.len() implies steady(syntax, region, #[trigger] t[i]) by {}
    let tail = seq!['"'] + b;
    assert(tail[0] == '"');
    assert(tail.skip(1) =~= b);
    let one = seq!['"'] + (s + tail);
    assert(a + seq!['"'] + s + seq!['"'] + b =~= a + one);
    lemma_code_kept(syntax, a, one, e);
    assert(e + a =~= a);
    assert(one[0] == '"');
    assert(one.skip(1) =~= s + tail);
    assert(mask_step(syntax, Region::Code, one, a) == (region, 1nat, false));
    lemma_blanked(syntax, region, s, tail, a + spaces(1));
    let out = a + spaces(1) + spaces(s.len());
    assert(mask_step(syntax, region, tail, out) == (Region::Code, 1nat, false));
    lemma_out_in_front(syntax, Region::Code, b, out + spaces(1));
    assert(out + spaces(1) =~= a + spaces(s.len() + 2));
    let more = seq!['\\', x] + (t + tail);
    let two = seq!['"'] + (s + more);
    assert(a + seq!['"'] + s + seq!['\\', x] + t + seq!['"'] + b =~= a + two);
    lemma_code_kept(syntax, a, two, e);
    assert(two[0] == '"');
    assert(two.skip(1) =~= s + more);
    assert(mask_step(syntax, Region::Code, two, a) == (region, 1nat, false));
    lemma_blanked(syntax, region, s, more, a + spaces(1));
    assert(more[0] == '\\');
    assert(mask_step(syntax, region, more, out) == (escaped, 1nat, false));
    assert(mask_from(syntax, region, more, out) == mask_from(
        syntax,
        escaped,
        more.skip(1),
        out + spaces(1),
    ));
    let inner = seq![x] + (t + tail);
    assert(more.skip(1) =~= inner);
    assert(inner[0] == x);
    assert(mask_step(syntax, escaped, inner, out + spaces(1)) == (region, 1nat, false));
    assert(inner.skip(1) =~= t + tail);
    assert(mask_from(syntax, escaped, inner, out + spaces(1)) == mask_from(
        syntax,
        region,
        inner.skip(1),
        out + spaces(1) + spaces(1),
    ));
    lemma_blanked(syntax, region, t, tail, out + spaces(1) + spaces(1));
    let far = out + spaces(1) + spaces(1) + spaces(t.len());
    assert(mask_step(syntax, region, tail, far) == (Region::Code, 1nat, false));
    lemma_out_in_front(syntax, Region::Code, b, far + spaces(1));
    assert(far + spaces(1) =~= a + spaces(s.len() + t.len() + 4));
}

/// In Python, and in configuration files, a comment starts with a hash sign
/// and ends with its line.
pub proof fn law_hash_comment_is_blanked(
    syntax: Syntax,
    a: Seq<char>,
    comment: Seq<char>,
    b: Seq<char>,
)
    requires
        syntax is Python || syntax == (Syntax::JsonLike { hash_comments: true }),
        plain_code(a),
        !comment.contains('\n'),
    ensures
        masked_as(syntax, a + seq!['#'] + comment + seq!['\n'] + b) == a + spaces(comment.len() + 1)
            + seq!['\n'] + masked_as(syntax, b),
{
    let tail = seq!['\n'] + b;
    let s = seq!['#'] + (comment + tail);
    assert(a + seq!['#'] + comment + seq!['\n'] + b =~= a + s);
    lemma_code_before_hash(syntax, a, s, Seq::empty());
    assert(Seq::<char>::empty() + a =~= a);
    assert(s[0] == '#');
    assert(s.skip(1) =~= comment + tail);
    assert(mask_step(syntax, Region::Code, s, a) == (Region::LineComment, 1nat, false));
    assert forall|i: int| 0 <= i < comment.len() implies steady(
        syntax,
        Region::LineComment,
        #[trigger] comment[i],
    ) by {
        assert(comment.contains(comment[i]));
    }
    lemma_blanked(syntax, Region::LineComment, comment, tail, a + spaces(1));
    assert(tail[0] == '\n');
    assert(tail.skip(1) =~= b);
    let out = a + spaces(1) + spaces(comment.len());
    assert(mask_step(syntax, Region::LineComment, tail, out) == (Region::Code, 1nat, true));
    lemma_out_in_front(syntax, Region::Code, b, out + seq!['\n']);
    assert(out + seq!['\n'] =~= a + spaces(comment.len() + 1) + seq!['\n']);
}

proof fn lemma_code_before_hash(syntax: Syntax, a: Seq<char>, rest: Seq<char>, out: Seq<char>)
    requires
        !(syntax is CLike),
        plain_code(a),
    ensures
        mask_from(syntax, Region::Code, a + rest, out) == mask_from(
            syntax,
            Region::Code,
            rest,
            out + a,
        ),
    decreases a.len(),
{
    let all = a + rest;
    if a.len() == 0 {
        assert(all =~= rest);
        assert(out + a =~= out);
    } else {
        lemma_code_step(syntax, a, rest, out);
        let tail = a.skip(1);
        assert(plain_code(tail)) by {
            assert forall|i: int| 0 <= i < tail.len() implies #[trigger] tail[i] != '"' && tail[i]
                != '\'' && tail[i] != '/' && tail[i] != '`' && tail[i] != '#' && tail[i] != '<' by {
                assert(tail[i] == a[i + 1]);
            }
        }
        lemma_code_before_hash(syntax, tail, rest, out + seq![a[0]]);
        assert(all[0] == a[0]);
        assert(all.skip(1) =~= tail + rest);
        assert(out + seq![a[0]] + tail =~= out + a);
    }
}

// Delimiters of a language.

/// Delimiters are checked in Rust, in JavaScript, in C and its relatives, in
/// JSON and in style sheets, and an imbalance hides what a parser says; in
/// the other languages they are not.
pub proof fn law_languages_with_delimiters(
    path: Seq<char>,
    language: QuickCheckLanguage,
    text: Seq<char>,
    finding: FindingView,
    line: Option<u64>,
)
    requires
        delimiter_findings(path, masked_for(language, text)) == seq![finding],
        finding.severity is Error,
        crate::text_laws::stands_in("delimiter"@, finding.message),
    ensures
        language is Rust || language is JavaScriptLike || language is CLike || language is Go
            || language is JavaLike || language is CSharp || language is GDScript
            || language is Json || language is CssLike ==> text_findings(
            path,
            language,
            text,
            line,
        ).contains(finding) && text_findings(path, language, text, line) == text_findings(
            path,
            language,
            text,
            None,
        ),
{
    let scan = scan_findings(path, language, text);
    let lines = lines_of(masked_for(language, text));
    let markers = super::post_edit_check::line_findings(
        super::post_edit_check::LineRule::Markers,
        path,
        lines,
    );
    if language.balances() {
        assert(scan[markers.len() as int] == finding);
        crate::text_laws::law_has_text(finding.message, "delimiter"@);
        assert(super::post_edit_check::reports_delimiter(scan[markers.len() as int]));
        assert(super::post_edit_check::any_delimiter_error(scan));
    }
}

/// In Python, markup, Markdown and the rest no delimiters are checked.
pub proof fn law_languages_without_delimiters(
    path: Seq<char>,
    language: QuickCheckLanguage,
    text: Seq<char>,
)
    requires
        language is Python || language is JsxLike || language is Toml || language is Yaml
            || language is HtmlXml || language is Markdown || language is ShellLike,
    ensures
        text_findings(path, language, text, None) == super::post_edit_check::line_findings(
            super::post_edit_check::LineRule::Markers,
            path,
            lines_of(masked_for(language, text)),
        ),
{
    let scan = scan_findings(path, language, text);
    let markers = super::post_edit_check::line_findings(
        super::post_edit_check::LineRule::Markers,
        path,
        lines_of(masked_for(language, text)),
    );
    assert(scan =~= markers);
    assert(text_findings(path, language, text, None) =~= markers);
}

// Regions of single languages.

proof fn lemma_region(
    syntax: Syntax,
    region: Region,
    open: Seq<char>,
    inner: Seq<char>,
    close: Seq<char>,
    b: Seq<char>,
    out: Seq<char>,
)
    requires
        open.len() > 0 && close.len() > 0,
        calm_region(region),
        forall|i: int| 0 <= i < inner.len() ==> steady(syntax, region, #[trigger] inner[i]),
        mask_step(syntax, Region::Code, open + inner + close + b, out) == (
            region,
            open.len(),
            false,
        ),
        mask_step(syntax, region, close + b, out + spaces(open.len()) + spaces(inner.len())) == (
            Region::Code,
            close.len(),
            false,
        ),
    ensures
        mask_from(syntax, Region::Code, open + inner + close + b, out) == mask_from(
            syntax,
            Region::Code,
            b,
            out + spaces(open.len() + inner.len() + close.len()),
        ),
{
    let s = open + inner + close + b;
    assert(s.skip(open.len() as int) =~= inner + (close + b));
    lemma_blanked(syntax, region, inner, close + b, out + spaces(open.len()));
    assert((close + b).skip(close.len() as int) =~= b);
    assert(out + spaces(open.len()) + spaces(inner.len()) + spaces(close.len()) =~= out + spaces(
        open.len() + inner.len() + close.len(),
    ));
}

proof fn lemma_hashes(n: nat, rest: Seq<char>)
    requires
        rest.len() > 0 ==> rest[0] != '#',
    ensures
        super::mask::hash_run(Seq::new(n, |i: int| '#') + rest) == n,
{
    let hashes = Seq::new(n, |i: int| '#');
    lemma_leading(hashes + rest, CharClass::Only('#'), n);
}

/// A raw string in Rust is blanked up to a quote with as many hashes as stand
/// before it.
pub proof fn law_raw_string_is_blanked(n: nat, inner: Seq<char>, b: Seq<char>)
    requires
        n <= usize::MAX,
        !inner.contains('"') && !inner.contains('\n'),
        b.len() > 0 ==> b[0] != '#',
    ensures
        ({
            let hashes = Seq::new(n, |i: int| '#');
            masked_for(
                QuickCheckLanguage::Rust,
                seq!['r'] + hashes + seq!['"'] + inner + seq!['"'] + hashes + b,
            ) == spaces(n + n + inner.len() + 3) + masked_for(QuickCheckLanguage::Rust, b)
        }),
{
    let syntax = Syntax::CLike(rust_options());
    let e = Seq::<char>::empty();
    let hashes = Seq::new(n, |i: int| '#');
    let open = seq!['r'] + hashes + seq!['"'];
    let close = seq!['"'] + hashes;
    let s = open + inner + close + b;
    let region = Region::Raw { hashes: n as usize };
    assert(seq!['r'] + hashes + seq!['"'] + inner + seq!['"'] + hashes + b =~= s);
    let behind = seq!['"'] + inner + close + b;
    lemma_hashes(n, behind);
    assert(s.skip(1) =~= hashes + behind);
    assert(s[0] == 'r');
    assert(s[1 + n as int] == '"');
    assert(s[1] != '/' && s[1] != '*') by {
        if n > 0 {
            assert(s[1] == hashes[0]);
        }
    }
    assert(mask_step(syntax, Region::Code, s, e) == (region, open.len(), false));
    assert forall|i: int| 0 <= i < inner.len() implies steady(
        syntax,
        region,
        #[trigger] inner[i],
    ) by {
        assert(inner.contains(inner[i]));
    }
    let t = close + b;
    assert(t[0] == '"');
    assert(t.skip(1) =~= hashes + b);
    lemma_hashes(n, b);
    lemma_region(syntax, region, open, inner, close, b, e);
    let blank = spaces(open.len() + inner.len() + close.len());
    assert(e + blank =~= spaces(n + n + inner.len() + 3));
    lemma_out_in_front(syntax, Region::Code, b, spaces(n + n + inner.len() + 3));
}

/// A character in Rust is blanked, so that no delimiter in it counts; what
/// starts with a letter behind the quote is a lifetime and is kept.
pub proof fn law_characters_are_blanked(c: char, letter: char, b: Seq<char>)
    requires
        c != '\n' && c != '\'' && c != '\\' && c != '_',
        !('a' <= c && c <= 'z') && !('A' <= c && c <= 'Z'),
        ('a' <= letter && letter <= 'z') || ('A' <= letter && letter <= 'Z'),
        letter != 'r',
        b.len() > 0 ==> b[0] != '"' && b[0] != '#',
    ensures
        masked_for(QuickCheckLanguage::Rust, seq!['\'', c, '\''] + b) == spaces(3) + masked_for(
            QuickCheckLanguage::Rust,
            b,
        ),
        masked_for(QuickCheckLanguage::Rust, seq!['\'', letter] + b) == seq!['\'', letter]
            + masked_for(QuickCheckLanguage::Rust, b),
{
    let syntax = Syntax::CLike(rust_options());
    let e = Seq::<char>::empty();
    let open = seq!['\''];
    let inner = seq![c];
    let s = open + inner + open + b;
    let region = Region::Quoted { quote: '\'', escaped: false };
    assert(seq!['\'', c, '\''] + b =~= s);
    assert(s[0] == '\'');
    let behind = s.skip(1);
    assert(behind[0] == c && behind[1] == '\'');
    reveal_with_fuel(super::mask::char_body, 3);
    assert(behind.skip(1)[0] == '\'');
    assert(super::mask::char_body(behind.skip(1), false, 1));
    assert(super::mask::char_body(behind, false, 0));
    assert(super::mask::char_literal(behind));
    assert(mask_step(syntax, Region::Code, s, e) == (region, 1nat, false));
    assert((open + b)[0] == '\'');
    assert forall|i: int| 0 <= i < inner.len() implies steady(
        syntax,
        region,
        #[trigger] inner[i],
    ) by {}
    lemma_region(syntax, region, open, inner, open, b, e);
    assert(e + spaces(3) =~= spaces(3));
    lemma_out_in_front(syntax, Region::Code, b, spaces(3));
    let t = seq!['\'', letter] + b;
    assert(t[0] == '\'');
    let rest = t.skip(1);
    assert(rest[0] == letter);
    assert(mask_step(syntax, Region::Code, t, e) == (Region::Code, 1nat, true));
    assert(mask_step(syntax, Region::Code, rest, seq!['\'']) == (Region::Code, 1nat, true));
    assert(rest.skip(1) =~= b);
    assert(e + seq!['\''] =~= seq!['\'']);
    assert(seq!['\''] + seq![letter] =~= seq!['\'', letter]);
    assert(mask_from(syntax, Region::Code, rest, seq!['\'']) == mask_from(
        syntax,
        Region::Code,
        b,
        seq!['\'', letter],
    ));
    assert(mask_from(syntax, Region::Code, t, e) == mask_from(
        syntax,
        Region::Code,
        rest,
        seq!['\''],
    ));
    lemma_out_in_front(syntax, Region::Code, b, seq!['\'', letter]);
}

/// Comments in comments are counted.
pub proof fn law_nested_comment_is_blanked(rust: bool, b: Seq<char>)
    ensures
        masked_as(c_syntax(rust), seq!['/', '*', '/', '*', '*', '/', '{', '*', '/'] + b) == spaces(
            9,
        ) + masked_as(c_syntax(rust), b),
{
    let syntax = c_syntax(rust);
    let e = Seq::<char>::empty();
    let s = seq!['/', '*', '/', '*', '*', '/', '{', '*', '/'] + b;
    let one = Region::BlockComment { depth: 1 };
    let two = Region::BlockComment { depth: 2 };
    assert(mask_step(syntax, Region::Code, s, e) == (one, 2nat, false));
    let s1 = s.skip(2);
    let o1 = e + spaces(2);
    assert(mask_step(syntax, one, s1, o1) == (two, 2nat, false));
    let s2 = s1.skip(2);
    let o2 = o1 + spaces(2);
    assert(mask_step(syntax, two, s2, o2) == (one, 2nat, false));
    let s3 = s2.skip(2);
    let o3 = o2 + spaces(2);
    assert(mask_step(syntax, one, s3, o3) == (one, 1nat, false));
    let s4 = s3.skip(1);
    let o4 = o3 + spaces(1);
    assert(mask_step(syntax, one, s4, o4) == (Region::Code, 2nat, false));
    let o5 = o4 + spaces(2);
    assert(s4.skip(2) =~= b);
    assert(o5 =~= spaces(9));
    assert(mask_from(syntax, one, s4, o4) == mask_from(syntax, Region::Code, b, o5));
    assert(mask_from(syntax, one, s3, o3) == mask_from(syntax, one, s4, o4));
    assert(mask_from(syntax, two, s2, o2) == mask_from(syntax, one, s3, o3));
    assert(mask_from(syntax, one, s1, o1) == mask_from(syntax, two, s2, o2));
    assert(mask_from(syntax, Region::Code, s, e) == mask_from(syntax, one, s1, o1));
    lemma_out_in_front(syntax, Region::Code, b, spaces(9));
}

/// In scripts a text in single quotes and a template are blanked.
pub proof fn law_script_strings_are_blanked(
    language: QuickCheckLanguage,
    quote: char,
    inner: Seq<char>,
)
    requires
        language is JavaScriptLike || language is JsxLike,
        quote == '"' || quote == '\'' || quote == '`',
        forall|i: int|
            0 <= i < inner.len() ==> #[trigger] inner[i] != '\n' && inner[i] != quote && inner[i]
                != '\\',
    ensures
        masked_for(language, seq![quote] + inner + seq![quote]) == spaces(inner.len() + 2),
{
    let syntax = Syntax::CLike(script_options());
    let e = Seq::<char>::empty();
    let open = seq![quote];
    let s = open + inner + open + e;
    assert(seq![quote] + inner + seq![quote] =~= s);
    let region = if quote == '`' {
        Region::Template { escaped: false }
    } else {
        Region::Quoted { quote, escaped: false }
    };
    assert(s[0] == quote);
    assert(mask_step(syntax, Region::Code, s, e) == (region, 1nat, false));
    assert((open + e)[0] == quote);
    assert forall|i: int| 0 <= i < inner.len() implies steady(
        syntax,
        region,
        #[trigger] inner[i],
    ) by {}
    lemma_region(syntax, region, open, inner, open, e, e);
    assert(e + spaces(inner.len() + 2) =~= spaces(inner.len() + 2));
}

/// A slash in a script starts a pattern where one can stand, and is kept where
/// something is divided.
pub proof fn law_patterns_are_blanked(
    out: Seq<char>,
    before: char,
    inner: Seq<char>,
    b: Seq<char>,
)
    requires
        inner.len() > 0 && inner[0] != '/' && inner[0] != '*',
        forall|i: int|
            0 <= i < inner.len() ==> #[trigger] inner[i] != '\n' && inner[i] != '/' && inner[i]
                != '\\',
    ensures
        before == '(' || before == '[' || before == '{' || before == '=' || before == ':' || before
            == ',' || before == ';' || before == '!' || before == '&' || before == '|' || before
            == '?' || before == '+' || before == '-' ==> mask_from(
            Syntax::CLike(script_options()),
            Region::Code,
            seq!['/'] + inner + seq!['/'] + b,
            out + seq![before, ' '],
        ) == mask_from(
            Syntax::CLike(script_options()),
            Region::Code,
            b,
            out + seq![before, ' '] + spaces(inner.len() + 2),
        ),
        before == ')' || before == 'x' || before == '0' ==> mask_from(
            Syntax::CLike(script_options()),
            Region::Code,
            seq!['/'] + inner + b,
            out + seq![before, ' '],
        ) == mask_from(
            Syntax::CLike(script_options()),
            Region::Code,
            inner + b,
            out + seq![before, ' '] + seq!['/'],
        ),
{
    let syntax = Syntax::CLike(script_options());
    let written = out + seq![before, ' '];
    assert(written.last() == ' ');
    assert(written.drop_last().last() == before);
    reveal_with_fuel(super::mask::last_solid, 3);
    let open = seq!['/'];
    let s = open + inner + open + b;
    assert(s[0] == '/' && s[1] == inner[0]);
    let region = Region::Pattern { escaped: false };
    if super::mask::precedes_pattern(before) {
        assert(super::mask::last_solid(written) == Some(before));
        assert(mask_step(syntax, Region::Code, s, written) == (region, 1nat, false));
        assert((open + b)[0] == '/');
        assert forall|i: int| 0 <= i < inner.len() implies steady(
            syntax,
            region,
            #[trigger] inner[i],
        ) by {}
        lemma_region(syntax, region, open, inner, open, b, written);
    }
    if before == ')' || before == 'x' || before == '0' {
        assert(super::mask::last_solid(written) == Some(before));
        let t = seq!['/'] + inner + b;
        assert(t[0] == '/' && t[1] == inner[0]);
        assert(mask_step(syntax, Region::Code, t, written) == (Region::Code, 1nat, true));
        assert(t.skip(1) =~= inner + b);
    }
}

/// A text in three quotes in Python is blanked, and so is a comment in markup.
pub proof fn law_python_and_markup(quote: char, inner: Seq<char>, comment: Seq<char>, b: Seq<char>)
    requires
        quote == '"' || quote == '\'',
        forall|i: int| 0 <= i < inner.len() ==> #[trigger] inner[i] != '\n' && inner[i] != quote,
        forall|i: int|
            0 <= i < comment.len() ==> #[trigger] comment[i] != '\n' && comment[i] != '-',
    ensures
        masked_for(
            QuickCheckLanguage::Python,
            seq![quote, quote, quote] + inner + seq![quote, quote, quote] + b,
        ) == spaces(inner.len() + 6) + masked_for(QuickCheckLanguage::Python, b),
        masked_for(
            QuickCheckLanguage::HtmlXml,
            seq!['<', '!', '-', '-'] + comment + seq!['-', '-', '>'] + b,
        ) == spaces(comment.len() + 7) + masked_for(QuickCheckLanguage::HtmlXml, b),
{
    let e = Seq::<char>::empty();
    let open = seq![quote, quote, quote];
    let s = open + inner + open + b;
    let region = Region::Triple { quote };
    assert(s[0] == quote && s[1] == quote && s[2] == quote);
    assert(mask_step(Syntax::Python, Region::Code, s, e) == (region, 3nat, false));
    let t = open + b;
    assert(t[0] == quote && t[1] == quote && t[2] == quote);
    assert forall|i: int| 0 <= i < inner.len() implies steady(
        Syntax::Python,
        region,
        #[trigger] inner[i],
    ) by {}
    lemma_region(Syntax::Python, region, open, inner, open, b, e);
    assert(e + spaces(inner.len() + 6) =~= spaces(inner.len() + 6));
    lemma_out_in_front(Syntax::Python, Region::Code, b, spaces(inner.len() + 6));
    let start = seq!['<', '!', '-', '-'];
    let end = seq!['-', '-', '>'];
    let s = start + comment + end + b;
    assert(s[0] == '<' && s[1] == '!' && s[2] == '-' && s[3] == '-');
    assert(mask_step(Syntax::HtmlXml, Region::Code, s, e) == (
        Region::MarkupComment,
        4nat,
        false,
    ));
    let t = end + b;
    assert(t[0] == '-' && t[1] == '-' && t[2] == '>');
    assert forall|i: int| 0 <= i < comment.len() implies steady(
        Syntax::HtmlXml,
        Region::MarkupComment,
        #[trigger] comment[i],
    ) by {}
    lemma_region(Syntax::HtmlXml, Region::MarkupComment, start, comment, end, b, e);
    assert(e + spaces(comment.len() + 7) =~= spaces(comment.len() + 7));
    lemma_out_in_front(Syntax::HtmlXml, Region::Code, b, spaces(comment.len() + 7));
}

/// Lines between fences in a text are blanked with the fences; the others are
/// kept.
pub proof fn law_fences_are_blanked(
    open: Seq<char>,
    line: Seq<char>,
    close: Seq<char>,
    rest: Seq<Seq<char>>,
)
    requires
        open == "```"@ || open == "~~~"@ || open == "```rust"@,
        close == "```"@ || close == "~~~"@,
        line.len() > 0 && line[0] != '`' && line[0] != '~' && !crate::text::whitespace(line[0]),
    ensures
        super::mask::unfenced(seq![line] + rest, false) == seq![line] + super::mask::unfenced(
            rest,
            false,
        ),
        super::mask::unfenced(seq![open, line, close] + rest, false) == seq![
            spaces(crate::split::utf8_len(open)),
            spaces(crate::split::utf8_len(line)),
            spaces(crate::split::utf8_len(close)),
        ] + super::mask::unfenced(rest, false),
{
    reveal_strlit("```");
    reveal_strlit("~~~");
    reveal_strlit("```rust");
    lemma_leading(line, CharClass::Space, 0);
    assert(line.skip(0) =~= line);
    assert(!super::mask::fence_line(line)) by {
        if crate::text::has_prefix(line, "```"@) || crate::text::has_prefix(line, "~~~"@) {
            assert(line.subrange(0, 3)[0] == line[0]);
        }
    }
    lemma_leading(open, CharClass::Space, 0);
    assert(open.skip(0) =~= open);
    lemma_leading(close, CharClass::Space, 0);
    assert(close.skip(0) =~= close);
    assert("```rust"@.subrange(0, 3) =~= "```"@);
    assert("```"@.subrange(0, 3) =~= "```"@);
    assert("~~~"@.subrange(0, 3) =~= "~~~"@);
    assert(super::mask::fence_line(open) && super::mask::fence_line(close));
    let all = seq![line] + rest;
    assert(all[0] == line);
    assert(all.skip(1) =~= rest);
    let s = seq![open, line, close] + rest;
    let s1 = seq![line, close] + rest;
    let s2 = seq![close] + rest;
    assert(s[0] == open && s.skip(1) =~= s1);
    assert(s1[0] == line && s1.skip(1) =~= s2);
    assert(s2[0] == close && s2.skip(1) =~= rest);
    let x = spaces(crate::split::utf8_len(open));
    let y = spaces(crate::split::utf8_len(line));
    let z = spaces(crate::split::utf8_len(close));
    assert(super::mask::unfenced(s2, true) == seq![z] + super::mask::unfenced(rest, false));
    assert(super::mask::unfenced(s1, true) == seq![y] + super::mask::unfenced(s2, true));
    assert(super::mask::unfenced(s, false) == seq![x] + super::mask::unfenced(s1, true));
    assert(super::mask::unfenced(s, false) =~= seq![
        spaces(crate::split::utf8_len(open)),
        spaces(crate::split::utf8_len(line)),
        spaces(crate::split::utf8_len(close)),
    ] + super::mask::unfenced(rest, false));
}

/// A sign that starts nothing is kept: a slash before anything but another or
/// a star, and the start of a declaration in markup.
pub proof fn law_lone_signs_are_kept(rust: bool, c: char, b: Seq<char>)
    requires
        c != '/' && c != '*' && c != '-' && c != '"' && c != '\'',
    ensures
        masked_as(c_syntax(rust), seq!['/', c] + b) == seq!['/'] + masked_as(
            c_syntax(rust),
            seq![c] + b,
        ),
        masked_as(Syntax::HtmlXml, seq!['<', '!', c] + b) == seq!['<', '!'] + masked_as(
            Syntax::HtmlXml,
            seq![c] + b,
        ),
        masked_as(Syntax::HtmlXml, seq!['<', '!', '-', c] + b) == seq!['<', '!', '-'] + masked_as(
            Syntax::HtmlXml,
            seq![c] + b,
        ),
        masked_as(Syntax::JsonLike { hash_comments: false }, seq!['#'] + b) == seq!['#']
            + masked_as(Syntax::JsonLike { hash_comments: false }, b),
        masked_as(Syntax::JsonLike { hash_comments: false }, seq!['\''] + b) == seq!['\'']
            + masked_as(Syntax::JsonLike { hash_comments: false }, b),
{
    let e = Seq::<char>::empty();
    let syntax = c_syntax(rust);
    lemma_kept_sign(syntax, '/', seq![c] + b);
    assert(seq!['/'] + (seq![c] + b) =~= seq!['/', c] + b);
    let m = Syntax::HtmlXml;
    lemma_kept_sign(m, '!', seq![c] + b);
    lemma_kept_sign(m, '<', seq!['!'] + (seq![c] + b));
    assert(seq!['<'] + (seq!['!'] + (seq![c] + b)) =~= seq!['<', '!', c] + b);
    assert(seq!['<'] + (seq!['!'] + masked_as(m, seq![c] + b)) =~= seq!['<', '!'] + masked_as(
        m,
        seq![c] + b,
    ));
    lemma_kept_sign(m, '-', seq![c] + b);
    let dashed = seq!['-'] + (seq![c] + b);
    lemma_kept_sign(m, '!', dashed);
    lemma_kept_sign(m, '<', seq!['!'] + dashed);
    assert(seq!['<'] + (seq!['!'] + dashed) =~= seq!['<', '!', '-', c] + b);
    assert(seq!['<'] + (seq!['!'] + (seq!['-'] + masked_as(m, seq![c] + b))) =~= seq![
        '<',
        '!',
        '-',
    ] + masked_as(m, seq![c] + b));
    lemma_kept_sign(Syntax::JsonLike { hash_comments: false }, '#', b);
    lemma_kept_sign(Syntax::JsonLike { hash_comments: false }, '\'', b);
}

proof fn lemma_kept_sign(syntax: Syntax, c: char, rest: Seq<char>)
    requires
        regular(syntax),
        mask_step(syntax, Region::Code, seq![c] + rest, Seq::empty()) == (
            Region::Code,
            1nat,
            true,
        ),
    ensures
        masked_as(syntax, seq![c] + rest) == seq![c] + masked_as(syntax, rest),
{
    let s = seq![c] + rest;
    assert(s.skip(1) =~= rest);
    assert(Seq::<char>::empty() + seq![c] =~= seq![c]);
    lemma_out_in_front(syntax, Region::Code, rest, seq![c]);
}

} // verus!
