//! What holds of all checks of edited files: which lines are reported, when
//! delimiters balance, and what a report says.
use super::post_edit_check::{
    delimiter_findings, delimiter_issue, file_findings, finding_line, language_of_name,
    line_findings, masked_for, named_findings, report_lines, reported, scan_findings, text_findings,
    touched, FindingView, LineRule, PatchTargetView, QuickCheckLanguage, Severity,
};
use crate::bytes::plain_text;
use crate::number::decimal;
use crate::split::lines_of;
use crate::text_laws::{law_has_text, lemma_word_between, stands_in};
use vstd::prelude::*;
use vstd::string::*;

verus! {

// Lines.

/// What a check says of line `i`.
pub open spec fn on_line(path: Seq<char>, i: int, severity: Severity, message: Seq<char>) -> FindingView {
    FindingView { path, line: Some((i + 1) as u64), severity, message }
}

proof fn lemma_line_found(rule: LineRule, path: Seq<char>, lines: Seq<Seq<char>>, i: int)
    requires
        0 <= i < lines.len(),
        rule.message(lines[i]) is Some,
    ensures
        line_findings(rule, path, lines).contains(
            on_line(path, i, rule.severity(), rule.message(lines[i])->0),
        ),
    decreases lines.len(),
{
    let all = line_findings(rule, path, lines);
    let before = line_findings(rule, path, lines.drop_last());
    let finding = on_line(path, i, rule.severity(), rule.message(lines[i])->0);
    if i == lines.len() - 1 {
        assert(all[before.len() as int] == finding);
    } else {
        assert(lines.drop_last()[i] == lines[i]);
        lemma_line_found(rule, path, lines.drop_last(), i);
        let k = before.index_of(finding);
        assert(all[k] == finding);
    }
}

proof fn lemma_finding_has_line(rule: LineRule, path: Seq<char>, lines: Seq<Seq<char>>, k: int)
    requires
        0 <= k < line_findings(rule, path, lines).len(),
    ensures
        exists|i: int|
            0 <= i < lines.len() && rule.message(#[trigger] lines[i]) is Some && line_findings(
                rule,
                path,
                lines,
            )[k] == on_line(path, i, rule.severity(), rule.message(lines[i])->0),
    decreases lines.len(),
{
    if lines.len() > 0 {
        let all = line_findings(rule, path, lines);
        let before = line_findings(rule, path, lines.drop_last());
        if k < before.len() {
            lemma_finding_has_line(rule, path, lines.drop_last(), k);
            let i = choose|i: int|
                0 <= i < lines.drop_last().len() && rule.message(#[trigger] lines.drop_last()[i])
                    is Some && before[k] == on_line(
                    path,
                    i,
                    rule.severity(),
                    rule.message(lines.drop_last()[i])->0,
                );
            assert(lines[i] == lines.drop_last()[i]);
        } else {
            let i = lines.len() - 1;
            assert(lines[i] == lines.last());
        }
    }
}

proof fn lemma_scan_holds(
    path: Seq<char>,
    language: QuickCheckLanguage,
    text: Seq<char>,
    line: Option<u64>,
    finding: FindingView,
)
    requires
        line_findings(
            LineRule::Markers,
            path,
            lines_of(masked_for(language, text)),
        ).contains(finding) || (language is Rust && line_findings(
            LineRule::RustMacros,
            path,
            lines_of(masked_for(language, text)),
        ).contains(finding)),
    ensures
        text_findings(path, language, text, line).contains(finding),
{
    let lines = lines_of(masked_for(language, text));
    let markers = line_findings(LineRule::Markers, path, lines);
    let macros = line_findings(LineRule::RustMacros, path, lines);
    let scan = scan_findings(path, language, text);
    let all = text_findings(path, language, text, line);
    if markers.contains(finding) {
        let k = markers.index_of(finding);
        assert(scan[k] == finding);
        assert(all[k] == finding);
    } else {
        let k = macros.index_of(finding);
        let at = scan.len() - macros.len() + k;
        assert(scan[at] == finding);
        assert(all[at] == finding);
    }
}

/// A line of code with a debug macro is reported with a warning, wherever in
/// the line it stands; so is one with a placeholder macro.
pub proof fn law_rust_macros_are_reported(
    path: Seq<char>,
    text: Seq<char>,
    line: Option<u64>,
    i: int,
    p: Seq<char>,
    q: Seq<char>,
)
    requires
        0 <= i < lines_of(masked_for(QuickCheckLanguage::Rust, text)).len(),
    ensures
        ({
            let findings = text_findings(path, QuickCheckLanguage::Rust, text, line);
            let code = lines_of(masked_for(QuickCheckLanguage::Rust, text))[i];
            &&& code == p + "dbg!("@ + q ==> findings.contains(
                on_line(path, i, Severity::Warning, "debug macro `dbg!` left in Rust file"@),
            )
            &&& code == p + "todo!()"@ + q && !stands_in("dbg!("@, code) ==> findings.contains(
                on_line(
                    path,
                    i,
                    Severity::Warning,
                    "placeholder macro `todo!()` left in Rust file"@,
                ),
            )
            &&& code == p + "unimplemented!()"@ + q && !stands_in("dbg!("@, code) && !stands_in(
                "todo!()"@,
                code,
            ) ==> findings.contains(
                on_line(
                    path,
                    i,
                    Severity::Warning,
                    "placeholder macro `unimplemented!()` left in Rust file"@,
                ),
            )
        }),
{
    let lines = lines_of(masked_for(QuickCheckLanguage::Rust, text));
    let code = lines[i];
    lemma_word_between(p, "dbg!("@, q);
    lemma_word_between(p, "todo!()"@, q);
    lemma_word_between(p, "unimplemented!()"@, q);
    law_has_text(code, "dbg!("@);
    law_has_text(code, "todo!()"@);
    law_has_text(code, "unimplemented!()"@);
    if LineRule::RustMacros.message(code) is Some {
        lemma_line_found(LineRule::RustMacros, path, lines, i);
        lemma_scan_holds(
            path,
            QuickCheckLanguage::Rust,
            text,
            line,
            on_line(
                path,
                i,
                LineRule::RustMacros.severity(),
                LineRule::RustMacros.message(code)->0,
            ),
        );
    }
}

/// Whether a line holds a conflict marker.
pub open spec fn conflict_line(code: Seq<char>) -> bool {
    stands_in("<<<<<<<"@, code) || stands_in("======="@, code) || stands_in(">>>>>>>"@, code)
}

/// Whether a line holds a marker of a patch.
pub open spec fn patch_line(code: Seq<char>) -> bool {
    stands_in("*** Begin Patch"@, code) || stands_in("*** End Patch"@, code)
}

/// Whether a line holds a placeholder that is to be removed.
pub open spec fn placeholder_line(code: Seq<char>) -> bool {
    stands_in("TODO_REMOVE"@, code) || stands_in("FIXME_REMOVE"@, code)
}

/// A line of code with a marker is reported with an error, in any language
/// and wherever in the line it stands.
pub proof fn law_markers_are_reported(
    path: Seq<char>,
    language: QuickCheckLanguage,
    text: Seq<char>,
    line: Option<u64>,
    i: int,
)
    requires
        0 <= i < lines_of(masked_for(language, text)).len(),
    ensures
        ({
            let findings = text_findings(path, language, text, line);
            let code = lines_of(masked_for(language, text))[i];
            &&& conflict_line(code) ==> findings.contains(
                on_line(path, i, Severity::Error, "git conflict marker"@),
            )
            &&& patch_line(code) && !conflict_line(code) ==> findings.contains(
                on_line(path, i, Severity::Error, "patch marker left in file"@),
            )
            &&& placeholder_line(code) && !conflict_line(code) && !patch_line(code)
                ==> findings.contains(
                on_line(path, i, Severity::Error, "remove placeholder before continuing"@),
            )
        }),
{
    let lines = lines_of(masked_for(language, text));
    let code = lines[i];
    lemma_marker_words(code);
    if LineRule::Markers.message(code) is Some {
        lemma_line_found(LineRule::Markers, path, lines, i);
        lemma_scan_holds(
            path,
            language,
            text,
            line,
            on_line(path, i, LineRule::Markers.severity(), LineRule::Markers.message(code)->0),
        );
    }
}

proof fn lemma_marker_words(code: Seq<char>)
    ensures
        LineRule::Markers.message(code) is Some <==> conflict_line(code) || patch_line(code)
            || placeholder_line(code),
        conflict_line(code) ==> LineRule::Markers.message(code) == Some("git conflict marker"@),
        patch_line(code) && !conflict_line(code) ==> LineRule::Markers.message(code) == Some(
            "patch marker left in file"@,
        ),
        placeholder_line(code) && !conflict_line(code) && !patch_line(code)
            ==> LineRule::Markers.message(code) == Some("remove placeholder before continuing"@),
{
    law_has_text(code, "<<<<<<<"@);
    law_has_text(code, "======="@);
    law_has_text(code, ">>>>>>>"@);
    law_has_text(code, "*** Begin Patch"@);
    law_has_text(code, "*** End Patch"@);
    law_has_text(code, "TODO_REMOVE"@);
    law_has_text(code, "FIXME_REMOVE"@);
}

/// Whether a line of code has nothing to report.
pub open spec fn quiet_line(language: QuickCheckLanguage, code: Seq<char>) -> bool {
    &&& !conflict_line(code) && !patch_line(code) && !placeholder_line(code)
    &&& language is Rust ==> !stands_in("dbg!("@, code) && !stands_in("todo!()"@, code)
        && !stands_in("unimplemented!()"@, code)
}

/// Lines without markers and macros are not reported: a text of such lines
/// has no findings but those on its delimiters and its syntax.
pub proof fn law_quiet_lines_are_not_reported(
    path: Seq<char>,
    language: QuickCheckLanguage,
    text: Seq<char>,
)
    requires
        forall|i: int|
            0 <= i < lines_of(masked_for(language, text)).len() ==> quiet_line(
                language,
                #[trigger] lines_of(masked_for(language, text))[i],
            ),
    ensures
        ({
            let balanced = delimiter_findings(path, masked_for(language, text)).len() == 0;
            &&& balanced ==> text_findings(path, language, text, None).len() == 0
            &&& balanced ==> forall|line: u64| #[trigger]
                text_findings(path, language, text, Some(line)) == seq![
                    FindingView {
                        path,
                        line: Some(line),
                        severity: Severity::Warning,
                        message: "syntax parse issue detected"@,
                    },
                ]
        }),
{
    let lines = lines_of(masked_for(language, text));
    let markers = line_findings(LineRule::Markers, path, lines);
    let macros = line_findings(LineRule::RustMacros, path, lines);
    if markers.len() > 0 {
        lemma_finding_has_line(LineRule::Markers, path, lines, 0);
        let i = choose|i: int|
            0 <= i < lines.len() && LineRule::Markers.message(#[trigger] lines[i]) is Some
                && markers[0] == on_line(
                path,
                i,
                LineRule::Markers.severity(),
                LineRule::Markers.message(lines[i])->0,
            );
        lemma_marker_words(lines[i]);
        assert(quiet_line(language, lines[i]));
    }
    if language is Rust && macros.len() > 0 {
        lemma_finding_has_line(LineRule::RustMacros, path, lines, 0);
        let i = choose|i: int|
            0 <= i < lines.len() && LineRule::RustMacros.message(#[trigger] lines[i]) is Some
                && macros[0] == on_line(
                path,
                i,
                LineRule::RustMacros.severity(),
                LineRule::RustMacros.message(lines[i])->0,
            );
        law_has_text(lines[i], "dbg!("@);
        law_has_text(lines[i], "todo!()"@);
        law_has_text(lines[i], "unimplemented!()"@);
        assert(quiet_line(language, lines[i]));
    }
    if delimiter_findings(path, masked_for(language, text)).len() == 0 {
        let scan = scan_findings(path, language, text);
        assert(scan =~= Seq::<FindingView>::empty());
        assert forall|line: u64| #[trigger]
            text_findings(path, language, text, Some(line)) == seq![
                FindingView {
                    path,
                    line: Some(line),
                    severity: Severity::Warning,
                    message: "syntax parse issue detected"@,
                },
            ] by {
            assert(text_findings(path, language, text, Some(line)) =~= seq![
                FindingView {
                    path,
                    line: Some(line),
                    severity: Severity::Warning,
                    message: "syntax parse issue detected"@,
                },
            ]);
        }
    }
}

// Delimiters.

/// Whether a text has its delimiters in balance.
pub open spec fn balanced(s: Seq<char>) -> bool {
    delimiter_issue(s, Seq::empty(), 0) is None
}

/// How many line feeds a text holds.
pub open spec fn line_feeds(s: Seq<char>) -> nat
    decreases s.len(),
{
    if s.len() == 0 {
        0
    } else {
        line_feeds(s.skip(1)) + if s[0] == '\n' {
            1nat
        } else {
            0nat
        }
    }
}

spec fn same_open(a: Seq<(char, u64)>, b: Seq<(char, u64)>) -> bool {
    a.len() == b.len() && forall|i: int| 0 <= i < a.len() ==> (#[trigger] a[i]).0 == b[i].0
}

proof fn lemma_balanced_part(
    a: Seq<char>,
    rest: Seq<char>,
    inner: Seq<(char, u64)>,
    k: nat,
    stack: Seq<(char, u64)>,
    inside: Seq<(char, u64)>,
    breaks: nat,
)
    requires
        delimiter_issue(a, inner, k) is None,
        same_open(inner, inside),
    ensures
        delimiter_issue(a + rest, stack + inside, breaks) == delimiter_issue(
            rest,
            stack,
            breaks + line_feeds(a),
        ),
    decreases a.len(),
{
    let s = a + rest;
    let open = stack + inside;
    if a.len() == 0 {
        assert(s =~= rest);
        assert(open =~= stack);
    } else {
        let c = a[0];
        assert(s[0] == c);
        assert(s.skip(1) =~= a.skip(1) + rest);
        if c == '\n' {
            lemma_balanced_part(a.skip(1), rest, inner, k + 1, stack, inside, breaks + 1);
        } else if c == '{' || c == '[' || c == '(' {
            let x = (c, (k + 1) as u64);
            let y = (c, (breaks + 1) as u64);
            assert(open.push(y) =~= stack + inside.push(y));
            lemma_balanced_part(
                a.skip(1),
                rest,
                inner.push(x),
                k,
                stack,
                inside.push(y),
                breaks,
            );
        } else if c == '}' || c == ']' || c == ')' {
            assert(inner.len() > 0);
            assert(inner.last().0 == inside.last().0) by {
                assert(inner[inner.len() - 1].0 == inside[inner.len() - 1].0);
            }
            assert(open.last() == inside.last());
            assert(open.drop_last() =~= stack + inside.drop_last());
            assert(same_open(inner.drop_last(), inside.drop_last())) by {
                assert forall|i: int| 0 <= i < inner.drop_last().len() implies (
                #[trigger] inner.drop_last()[i]).0 == inside.drop_last()[i].0 by {
                    assert(inner[i].0 == inside[i].0);
                }
            }
            lemma_balanced_part(
                a.skip(1),
                rest,
                inner.drop_last(),
                k,
                stack,
                inside.drop_last(),
                breaks,
            );
        } else {
            lemma_balanced_part(a.skip(1), rest, inner, k, stack, inside, breaks);
        }
    }
}

proof fn lemma_after_balanced(a: Seq<char>, rest: Seq<char>, stack: Seq<(char, u64)>, breaks: nat)
    requires
        balanced(a),
    ensures
        delimiter_issue(a + rest, stack, breaks) == delimiter_issue(
            rest,
            stack,
            breaks + line_feeds(a),
        ),
{
    let e = Seq::<(char, u64)>::empty();
    lemma_balanced_part(a, rest, e, 0, stack, e, breaks);
    assert(stack + e =~= stack);
}

/// Whether a delimiter closes another.
pub open spec fn pair(open: char, close: char) -> bool {
    ||| open == '(' && close == ')'
    ||| open == '[' && close == ']'
    ||| open == '{' && close == '}'
}

/// Whether a text holds no delimiters.
pub open spec fn without_delimiters(s: Seq<char>) -> bool {
    forall|i: int|
        0 <= i < s.len() ==> #[trigger] s[i] != '(' && s[i] != ')' && s[i] != '[' && s[i] != ']'
            && s[i] != '{' && s[i] != '}'
}

/// Delimiters balance where there are none, around a balanced text where they
/// belong together, and in balanced texts one after the other.
pub proof fn law_balance(s: Seq<char>, a: Seq<char>, b: Seq<char>, open: char, close: char)
    requires
        without_delimiters(s),
        balanced(a),
        balanced(b),
        pair(open, close),
    ensures
        balanced(s),
        balanced(seq![open] + a + seq![close]),
        balanced(a + b),
{
    lemma_plain_balanced(s, 0);
    let e = Seq::<(char, u64)>::empty();
    lemma_after_balanced(a, b, e, 0);
    lemma_balanced_any(b, line_feeds(a));
    let w = seq![open] + a + seq![close];
    assert(w[0] == open);
    assert(w.skip(1) =~= a + seq![close]);
    let held = e.push((open, 1u64));
    lemma_after_balanced(a, seq![close], held, 0);
    let c = seq![close];
    assert(c.skip(1) =~= Seq::<char>::empty());
    assert(held.drop_last() =~= e);
    assert(delimiter_issue(c.skip(1), e, line_feeds(a)) is None);
    assert(delimiter_issue(c, held, line_feeds(a)) is None);
    assert((0nat + 1) as u64 == 1u64);
    assert(delimiter_issue(w, e, 0) == delimiter_issue(w.skip(1), held, 0));
}

proof fn lemma_plain_balanced(s: Seq<char>, breaks: nat)
    requires
        without_delimiters(s),
    ensures
        delimiter_issue(s, Seq::empty(), breaks) is None,
    decreases s.len(),
{
    if s.len() > 0 {
        let c = s[0];
        assert(without_delimiters(s.skip(1))) by {
            assert forall|i: int| 0 <= i < s.skip(1).len() implies #[trigger] s.skip(1)[i] != '('
                && s.skip(1)[i] != ')' && s.skip(1)[i] != '[' && s.skip(1)[i] != ']' && s.skip(
                1,
            )[i] != '{' && s.skip(1)[i] != '}' by {
                assert(s.skip(1)[i] == s[i + 1]);
            }
        }
        lemma_plain_balanced(s.skip(1), breaks);
        lemma_plain_balanced(s.skip(1), breaks + 1);
    }
}

proof fn lemma_balanced_any(a: Seq<char>, breaks: nat)
    requires
        balanced(a),
    ensures
        delimiter_issue(a, Seq::empty(), breaks) is None,
{
    lemma_after_balanced(a, Seq::empty(), Seq::empty(), breaks);
    assert(a + Seq::<char>::empty() =~= a);
}

/// A delimiter that closes nothing, one that closes another than its own, and
/// one that is not closed are each reported with an error, on the line of the
/// closing one or, where there is none, of the opening one.
pub proof fn law_imbalance(
    path: Seq<char>,
    a: Seq<char>,
    open: char,
    b: Seq<char>,
    close: char,
    rest: Seq<char>,
)
    requires
        balanced(a),
        balanced(b),
        open == '(' || open == '[' || open == '{',
        close == ')' || close == ']' || close == '}',
    ensures
        delimiter_findings(path, a + seq![close] + rest) == seq![
            on_line(
                path,
                line_feeds(a) as int,
                Severity::Error,
                "unmatched closing delimiter `"@ + seq![close] + "`"@,
            ),
        ],
        !pair(open, close) ==> delimiter_findings(
            path,
            a + seq![open] + b + seq![close] + rest,
        ) == seq![
            on_line(
                path,
                (line_feeds(a) + line_feeds(b)) as int,
                Severity::Error,
                "mismatched delimiter `"@ + seq![open] + "` from L"@ + decimal(
                    (line_feeds(a) + 1) as u64 as nat,
                ) + " closed by `"@ + seq![close] + "`"@,
            ),
        ],
        delimiter_findings(path, a + seq![open] + b) == seq![
            on_line(
                path,
                line_feeds(a) as int,
                Severity::Error,
                "unclosed delimiter `"@ + seq![open] + "`"@,
            ),
        ],
{
    let e = Seq::<(char, u64)>::empty();
    let n = line_feeds(a);
    let s1 = seq![close] + rest;
    assert(a + seq![close] + rest =~= a + s1);
    lemma_after_balanced(a, s1, e, 0);
    assert(s1[0] == close);
    let held = e.push((open, (n + 1) as u64));
    let s2 = seq![open] + b + seq![close] + rest;
    assert(a + seq![open] + b + seq![close] + rest =~= a + s2);
    lemma_after_balanced(a, s2, e, 0);
    assert(s2[0] == open);
    assert(s2.skip(1) =~= b + s1);
    lemma_after_balanced(b, s1, held, n);
    assert(delimiter_issue(s2, e, n) == delimiter_issue(s2.skip(1), held, n));
    let s3 = seq![open] + b;
    assert(a + seq![open] + b =~= a + s3);
    lemma_after_balanced(a, s3, e, 0);
    assert(s3[0] == open);
    assert(s3.skip(1) =~= b + Seq::<char>::empty());
    lemma_after_balanced(b, Seq::empty(), held, n);
    assert(delimiter_issue(s3, e, n) == delimiter_issue(s3.skip(1), held, n));
}

// Reports.

/// A finding is shown with its severity, its path, its line and its message.
pub proof fn law_finding_line(path: Seq<char>, line: u64, message: Seq<char>)
    ensures
        finding_line(
            FindingView { path, line: Some(line), severity: Severity::Error, message },
        ) == "error "@ + path + ":L"@ + decimal(line as nat) + " "@ + message,
        finding_line(
            FindingView { path, line: Some(line), severity: Severity::Warning, message },
        ) == "warning "@ + path + ":L"@ + decimal(line as nat) + " "@ + message,
        finding_line(FindingView { path, line: None, severity: Severity::Error, message })
            == "error "@ + path + " "@ + message,
{
    reveal_strlit("error ");
    reveal_strlit("error");
    reveal_strlit("warning ");
    reveal_strlit("warning");
    reveal_strlit(" ");
    assert("error "@ =~= "error"@ + " "@);
    assert("warning "@ =~= "warning"@ + " "@);
    let e = FindingView { path, line: Some(line), severity: Severity::Error, message };
    let w = FindingView { path, line: Some(line), severity: Severity::Warning, message };
    let n = FindingView { path, line: None, severity: Severity::Error, message };
    assert(finding_line(e) =~= "error "@ + path + ":L"@ + decimal(line as nat) + " "@ + message);
    assert(finding_line(w) =~= "warning "@ + path + ":L"@ + decimal(line as nat) + " "@ + message);
    assert(finding_line(n) =~= "error "@ + path + " "@ + message);
}

/// A report has a heading and a line for each finding, in order.
pub proof fn law_report(findings: Seq<FindingView>, i: int)
    requires
        0 <= i < findings.len(),
    ensures
        report_lines(findings).len() == findings.len() + 1,
        report_lines(findings)[0]
            == "Edited files were already changed on disk. Slowcatch found issues to fix before continuing:"@,
        report_lines(findings)[i + 1] == finding_line(findings[i]),
{
}

/// A report holds the findings of the files in order, and no more than
/// twenty; nothing is left out before that.
pub proof fn law_report_is_a_start(files: Seq<Seq<FindingView>>)
    ensures
        reported(files).len() <= 20,
        files.flatten().len() <= 20 ==> reported(files) == files.flatten(),
        files.flatten().len() > 20 ==> reported(files) == files.flatten().take(20),
{
    lemma_all_findings(files);
    let all = files.flatten();
    assert(all.len() == 20 ==> all.take(20) =~= all);
}

proof fn lemma_all_findings(files: Seq<Seq<FindingView>>)
    ensures
        super::post_edit_check::all_findings(files) == files.flatten(),
    decreases files.len(),
{
    if files.len() > 0 {
        lemma_all_findings(files.drop_last());
        files.lemma_flatten_and_flatten_alt_are_equivalent();
        files.drop_last().lemma_flatten_and_flatten_alt_are_equivalent();
    } else {
        assert(super::post_edit_check::all_findings(files) =~= files.flatten());
    }
}

/// No more than twenty files of a patch are checked, and no file of more than
/// a million bytes.
pub proof fn law_check_limits(
    targets: Seq<PatchTargetView>,
    path: Seq<char>,
    name: Seq<char>,
    len: u64,
    bytes: Seq<u8>,
)
    ensures
        touched(targets) matches Some(paths) ==> paths.len() <= 20,
        len > 1_000_000 ==> file_findings(path, name, true, len, bytes).len() == 0,
        len <= 1_000_000 && !(language_of_name(name) is Unknown) ==> file_findings(
            path,
            name,
            true,
            len,
            bytes,
        ) == match plain_text(bytes) {
            Some(text) => named_findings(path, name, text),
            None => Seq::empty(),
        },
{
}

} // verus!
