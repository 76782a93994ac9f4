//! What holds of all checks of a project: which are planned, how they are run
//! and what is shown of them.
use super::post_edit_state::{counted_paths, counts, PostEditView};
use super::project_check::{
    arguments_from, arguments_of, capped_text, checkable_files, cpp_command, cpp_plan, cut_at,
    diagnostic_text, diagnostics_from, diagnostics_text, failure_lines, name_fits, plan_of,
    quoted_value, rust_plan, trimmed_output, wanted, CheckView, DiagnosticView, FailureView,
    PlannedView, ProjectView, TouchedView,
};
use crate::backends::laws::{alike_texts, lemma_alike_texts};
use crate::number::{decimal, decimal_int};
use crate::record_laws::lemma_after_dot;
use crate::split::{joined, utf8_len};
use crate::text::{has_prefix, occurs_at, trimmed, whitespace};
use crate::text_laws::{law_ends, law_replaced, law_tight, lemma_replaced_behind, tight};
use vstd::prelude::*;
use vstd::string::*;

verus! {

// Names.

/// A pattern of a star, a dot and an extension fits the names with that
/// extension, in any case, and no others; a star fits every name; another
/// pattern fits the name that it is, in any case.
pub proof fn law_name_patterns(stem: Seq<char>, own: Seq<char>, ext: Seq<char>, name: Seq<char>)
    requires
        !own.contains('.'),
    ensures
        name_fits(stem + seq!['.'] + own, seq!['*', '.'] + ext) <==> alike_texts(own, ext),
        !name.contains('.') ==> !name_fits(name, seq!['*', '.'] + ext),
        name_fits(name, seq!['*']),
        !ext.contains('*') ==> (name_fits(name, ext) <==> alike_texts(name, ext)),
{
    reveal_strlit("*");
    reveal_strlit("*.");
    assert("*"@ =~= seq!['*']);
    assert("*."@ =~= seq!['*', '.']);
    let pattern = seq!['*', '.'] + ext;
    law_ends(seq!['*', '.'], ext);
    assert(pattern.skip(2) =~= ext);
    assert(pattern != "*"@) by {
        assert(pattern.len() >= 2);
    }
    lemma_after_dot(stem, own);
    lemma_alike_texts(own, ext);
    lemma_alike_texts(name, ext);
    if !name.contains('.') {
        lemma_no_dot(name);
    }
    if !ext.contains('*') {
        if ext == "*"@ {
            assert(ext[0] == '*');
            assert(ext.contains(ext[0]));
        }
        if has_prefix(ext, "*."@) {
            assert(ext.subrange(0, 2)[0] == ext[0]);
            assert(ext.contains(ext[0]));
        }
    }
}

proof fn lemma_no_dot(name: Seq<char>)
    requires
        !name.contains('.'),
    ensures
        crate::split::after_last(name, '.') is None,
    decreases name.len(),
{
    if name.len() > 0 {
        assert(name.contains(name[name.len() - 1]));
        assert(!name.drop_last().contains('.')) by {
            if name.drop_last().contains('.') {
                let i = name.drop_last().index_of('.');
                assert(name[i] == '.');
            }
        }
        lemma_no_dot(name.drop_last());
    }
}

// Plans.

/// The seconds that a check may take: those configured, or a default, but at
/// least one and at most a hundred and twenty.
pub open spec fn seconds_for(configured: Option<u64>, default: u64) -> u64 {
    let wanted = if configured is Some {
        configured->0
    } else {
        default
    };
    if wanted == 0 {
        1
    } else if wanted >= 120 {
        120
    } else {
        wanted
    }
}

/// A Rust project is checked once where it asks for it and a changed file
/// concerns it: with the configured command, or the usual one, in the
/// directory of the project.
pub proof fn law_rust_check(
    project: ProjectView,
    config: CheckView,
    root: Seq<char>,
    i: int,
    stem: Seq<char>,
)
    requires
        project.project_check == Some(config),
        project.cargo_root == Some(root),
        config.enabled,
        config.kind == "rust"@,
        config.trigger is None || config.trigger == Some("stop"@),
        config.changed_files is None,
        0 <= i < project.touched.len(),
        project.touched[i].name == stem + "."@ + "rs"@,
    ensures
        config.command is None ==> rust_plan(project) == Some(
            PlannedView {
                kind: "rust"@,
                file: None,
                command: "cargo check -q"@,
                cwd: root,
                timeout_seconds: seconds_for(config.timeout_seconds, 15),
            },
        ),
        config.command matches Some(command) && command.len() > 0 && tight(command) ==> rust_plan(
            project,
        ) == Some(
            PlannedView {
                kind: "rust"@,
                file: None,
                command: config.command->0,
                cwd: root,
                timeout_seconds: seconds_for(config.timeout_seconds, 15),
            },
        ),
{
    reveal_strlit("*.rs");
    reveal_strlit("rs");
    reveal_strlit(".");
    reveal_strlit("cargo check -q");
    assert("*.rs"@ =~= seq!['*', '.'] + "rs"@);
    assert("."@ =~= seq!['.']);
    assert(!"rs"@.contains('.')) by {
        if "rs"@.contains('.') {
            let k = "rs"@.index_of('.');
            assert("rs"@[k] == '.');
        }
    }
    law_name_patterns(stem, "rs"@, "rs"@, stem);
    assert(alike_texts("rs"@, "rs"@));
    let patterns = super::project_check::rust_patterns();
    assert(name_fits(project.touched[i].name, patterns[0]));
    assert(super::project_check::fits_any(project.touched[i].name, patterns));
    law_tight("cargo check -q"@);
    if let Some(command) = config.command {
        if tight(command) {
            law_tight(command);
        }
    }
}

/// A Rust project is not checked where it is not asked for, where the check
/// is of another kind or for another time, where there is no project, or
/// where the command is blank.
pub proof fn law_no_rust_check(project: ProjectView, config: CheckView)
    requires
        project.project_check == Some(config),
        !config.enabled || config.kind != "rust"@ || (config.trigger matches Some(trigger)
            && trigger != "stop"@) || project.cargo_root is None || (config.command
            matches Some(command) && trimmed(command).len() == 0),
    ensures
        rust_plan(project) is None,
{
}

/// A file of C or C++ is checked where the project asks for it, with the
/// command for that file, in the directory of the configuration.
pub proof fn law_cpp_check(project: ProjectView, config: CheckView, root: Seq<char>, i: int)
    requires
        project.cpp_check == Some(config),
        project.config_root == Some(root),
        0 <= i < cpp_plan(project).len(),
    ensures
        config.enabled,
        config.kind == "cpp"@,
        project.has_compile_commands,
        cpp_plan(project).len() <= 10,
        cpp_plan(project)[i].kind == "cpp"@,
        cpp_plan(project)[i].cwd == root,
        cpp_plan(project)[i].timeout_seconds == seconds_for(config.timeout_seconds, 20),
        exists|j: int|
            0 <= j < project.touched.len() && (#[trigger] project.touched[j]).is_file && cpp_plan(
                project,
            )[i].file == Some(project.touched[j].full_path),
        config.command is None ==> cpp_plan(project)[i].command == cpp_command(
            "clangd --check={file} --compile-commands-dir={compile_commands_dir}"@,
            cpp_plan(project)[i].file->0,
            project.compile_commands_dir,
        ),
{
    let patterns = super::project_check::patterns_used(
        config.changed_files,
        super::project_check::cpp_patterns(),
    );
    let files = checkable_files(project.touched, patterns, project.touched.len());
    lemma_checkable(project.touched, patterns, project.touched.len());
    assert(cpp_plan(project)[i].file == Some(files[i]));
    reveal_strlit("clangd --check={file} --compile-commands-dir={compile_commands_dir}");
    law_tight("clangd --check={file} --compile-commands-dir={compile_commands_dir}"@);
}

proof fn lemma_checkable(touched: Seq<TouchedView>, patterns: Seq<Seq<char>>, n: nat)
    requires
        n <= touched.len(),
    ensures
        forall|i: int|
            0 <= i < checkable_files(touched, patterns, n).len() ==> exists|j: int|
                0 <= j < n && (#[trigger] touched[j]).is_file && #[trigger] checkable_files(
                    touched,
                    patterns,
                    n,
                )[i] == touched[j].full_path,
    decreases n,
{
    if n > 0 {
        lemma_checkable(touched, patterns, (n - 1) as nat);
        let all = checkable_files(touched, patterns, n);
        let before = checkable_files(touched, patterns, (n - 1) as nat);
        assert forall|i: int| 0 <= i < all.len() implies exists|j: int|
            0 <= j < n && (#[trigger] touched[j]).is_file && #[trigger] all[i]
                == touched[j].full_path by {
            if i < before.len() {
                assert(all[i] == before[i]);
                let j = choose|j: int|
                    0 <= j < n - 1 && (#[trigger] touched[j]).is_file && before[i]
                        == touched[j].full_path;
                assert(touched[j].is_file);
            } else {
                assert(touched[n - 1].is_file);
            }
        }
    }
}

/// Every changed file that is there and fits is checked, up to ten, in order.
pub proof fn law_cpp_files(
    touched: Seq<TouchedView>,
    patterns: Seq<Seq<char>>,
    file: TouchedView,
)
    ensures
        checkable_files(touched.push(file), patterns, touched.len() + 1) == if file.is_file
            && super::project_check::fits_any(file.name, patterns) {
            checkable_files(touched, patterns, touched.len()).push(file.full_path)
        } else {
            checkable_files(touched, patterns, touched.len())
        },
{
    lemma_same_files(touched, touched.push(file), patterns, touched.len());
}

proof fn lemma_same_files(
    a: Seq<TouchedView>,
    b: Seq<TouchedView>,
    patterns: Seq<Seq<char>>,
    n: nat,
)
    requires
        n <= a.len(),
        n <= b.len(),
        forall|i: int| 0 <= i < n ==> a[i] == b[i],
    ensures
        checkable_files(a, patterns, n) == checkable_files(b, patterns, n),
    decreases n,
{
    if n > 0 {
        lemma_same_files(a, b, patterns, (n - 1) as nat);
        assert(a[n - 1] == b[n - 1]);
    }
}

/// The Rust check comes first, and the checks of single files behind it.
pub proof fn law_plan_order(project: ProjectView)
    ensures
        rust_plan(project) matches Some(check) ==> plan_of(project) == seq![check] + cpp_plan(
            project,
        ),
        rust_plan(project) is None ==> plan_of(project) == cpp_plan(project),
{
    assert(Seq::<PlannedView>::empty() + cpp_plan(project) =~= cpp_plan(project));
}

// Commands.

/// The command for a file has the file and the directory in the places that
/// the template leaves for them; a value with white space stands in quotes.
pub proof fn law_cpp_command(
    a: Seq<char>,
    b: Seq<char>,
    c: Seq<char>,
    file: Seq<char>,
    dir: Seq<char>,
)
    requires
        !a.contains('{') && !b.contains('{') && !c.contains('{'),
        !file.contains('{'),
        forall|i: int| 0 <= i < file.len() ==> !whitespace(#[trigger] file[i]),
        forall|i: int| 0 <= i < dir.len() ==> !whitespace(#[trigger] dir[i]),
    ensures
        cpp_command(a + "{file}"@ + b + "{compile_commands_dir}"@ + c, file, dir) == a + file + b
            + dir + c,
{
    reveal_strlit("{file}");
    reveal_strlit("{compile_commands_dir}");
    let f = "{file}"@;
    let d = "{compile_commands_dir}"@;
    assert(quoted_value(file) == file);
    assert(quoted_value(dir) == dir);
    let template = a + f + b + d + c;
    let rest = b + d + c;
    assert(template =~= a + f + rest);
    law_replaced(a, f, file, rest);
    let tail = d + c;
    assert(rest =~= b + tail);
    lemma_replaced_behind(b, tail, f, file);
    assert(!occurs_at(tail, f, 0)) by {
        if occurs_at(tail, f, 0) {
            assert(tail.subrange(0, f.len() as int)[1] == tail[1]);
        }
    }
    let inner = d.skip(1) + c;
    assert(tail.skip(1) =~= inner);
    assert(!inner.contains('{')) by {
        if inner.contains('{') {
            let i = inner.index_of('{');
            if i < d.len() - 1 {
                assert(inner[i] == d[i + 1]);
            } else {
                assert(c[i - (d.len() - 1)] == '{');
            }
        }
    }
    law_replaced(inner, f, file, c);
    assert(seq![tail[0]] + inner =~= tail);
    let once = a + file + (b + tail);
    let front = a + file + b;
    assert(once =~= front + d + c);
    assert(!front.contains('{')) by {
        if front.contains('{') {
            let i = front.index_of('{');
            if i < a.len() {
                assert(a[i] == '{');
            } else if i < a.len() + file.len() {
                assert(file[i - a.len()] == '{');
            } else {
                assert(b[i - a.len() - file.len()] == '{');
            }
        }
    }
    law_replaced(front, d, dir, c);
    law_replaced(c, d, dir, c);
    assert(front + dir + c =~= a + file + b + dir + c);
}

/// A command is split at white space outside quotes: a word, a space and more
/// are that word and the words of the rest.
pub proof fn law_arguments(word: Seq<char>, rest: Seq<char>)
    requires
        word.len() > 0,
        forall|i: int|
            0 <= i < word.len() ==> !whitespace(#[trigger] word[i]) && word[i] != '"' && word[i]
                != '\'',
    ensures
        arguments_of(word + seq![' '] + rest) == seq![word] + arguments_of(rest),
        arguments_of(word) == seq![word],
{
    let e = Seq::<char>::empty();
    lemma_argument_run(word, seq![' '] + rest, e);
    assert(word + (seq![' '] + rest) =~= word + seq![' '] + rest);
    assert(e + word =~= word);
    let tail = seq![' '] + rest;
    assert(tail[0] == ' ');
    assert(tail.skip(1) =~= rest);
    lemma_argument_run(word, e, e);
    assert(word + e =~= word);
}

proof fn lemma_argument_run(word: Seq<char>, tail: Seq<char>, current: Seq<char>)
    requires
        forall|i: int|
            0 <= i < word.len() ==> !whitespace(#[trigger] word[i]) && word[i] != '"' && word[i]
                != '\'',
    ensures
        arguments_from(word + tail, None, current) == arguments_from(tail, None, current + word),
    decreases word.len(),
{
    let s = word + tail;
    if word.len() == 0 {
        assert(s =~= tail);
        assert(current + word =~= current);
    } else {
        assert(s[0] == word[0]);
        let rest = word.skip(1);
        assert(s.skip(1) =~= rest + tail);
        assert forall|i: int| 0 <= i < rest.len() implies !whitespace(#[trigger] rest[i]) && rest[i]
            != '"' && rest[i] != '\'' by {
            assert(rest[i] == word[i + 1]);
        }
        lemma_argument_run(rest, tail, current.push(word[0]));
        assert(current.push(word[0]) + rest =~= current + word);
    }
}

// What is shown.

/// A failure is shown with its kind and its file, its command, its directory
/// and its exit code, and with what it wrote.
pub proof fn law_failure_lines(
    kind: Seq<char>,
    file: Seq<char>,
    command: Seq<char>,
    cwd: Seq<char>,
    code: i32,
    stderr: Seq<char>,
    stdout: Seq<char>,
)
    requires
        stderr.len() > 0 && tight(stderr) && utf8_len(stderr) <= 65536,
        stdout.len() > 0 && tight(stdout) && utf8_len(stdout) <= 65536,
    ensures
        failure_lines(
            Some(kind),
            Some(file),
            FailureView { command, cwd, exit_code: Some(code), stdout, stderr },
        ) == seq![
            "kind="@ + kind,
            "file="@ + file,
            "command="@ + command,
            "cwd="@ + cwd,
            "exit_code="@ + decimal_int(code as int),
            "stderr:"@,
            stderr,
            "stdout:"@,
            stdout,
        ],
        failure_lines(
            Some(kind),
            None,
            FailureView {
                command,
                cwd,
                exit_code: None,
                stdout: Seq::empty(),
                stderr: Seq::empty(),
            },
        ) == seq![
            "kind="@ + kind,
            "command="@ + command,
            "cwd="@ + cwd,
            "exit_code="@ + "unknown"@,
        ],
{
    law_tight(stderr);
    law_tight(stdout);
    let e = Seq::<char>::empty();
    law_tight(e);
    let full = FailureView { command, cwd, exit_code: Some(code), stdout, stderr };
    assert(failure_lines(Some(kind), Some(file), full) =~= seq![
        "kind="@ + kind,
        "file="@ + file,
        "command="@ + command,
        "cwd="@ + cwd,
        "exit_code="@ + decimal_int(code as int),
        "stderr:"@,
        stderr,
        "stdout:"@,
        stdout,
    ]);
    let bare = FailureView { command, cwd, exit_code: None, stdout: e, stderr: e };
    assert(failure_lines(Some(kind), None, bare) =~= seq![
        "kind="@ + kind,
        "command="@ + command,
        "cwd="@ + cwd,
        "exit_code="@ + "unknown"@,
    ]);
}

/// Failures are numbered where there are several, and stand one after the
/// other with an empty line between them.
pub proof fn law_failures(diagnostics: Seq<DiagnosticView>, i: int)
    requires
        0 <= i < diagnostics.len(),
    ensures
        ({
            let d = diagnostics[i];
            let text = joined(failure_lines(Some(d.kind), d.file, d.failure), seq!['\n']);
            &&& diagnostics.len() == 1 ==> diagnostics_text(diagnostics) == text
            &&& diagnostics.len() > 1 ==> diagnostic_text(diagnostics, i) == "check "@ + decimal(
                (i + 1) as nat,
            ) + ":\n"@ + text
        }),
        diagnostics_text(diagnostics) == joined(
            Seq::new(diagnostics.len(), |k: int| diagnostic_text(diagnostics, k)),
            seq!['\n', '\n'],
        ),
{
    reveal_strlit("\n");
    reveal_strlit("\n\n");
    assert("\n"@ =~= seq!['\n']);
    assert("\n\n"@ =~= seq!['\n', '\n']);
}

/// What a failed check wrote is cut to its longest start of at most sixty-four
/// kilobytes, and the cut is marked; shorter output is shown whole.
pub proof fn law_output_is_cut(text: Seq<char>)
    requires
        tight(text),
    ensures
        utf8_len(text) <= 65536 ==> trimmed_output(text) == text,
        utf8_len(text) > 65536 ==> exists|n: int|
            0 <= n < text.len() && utf8_len(text.take(n)) <= 65536 && utf8_len(text.take(n + 1))
                > 65536 && trimmed_output(text) == #[trigger] text.take(n)
                + "\n... truncated ..."@,
{
    law_tight(text);
    if utf8_len(text) > 65536 {
        lemma_cut(text, text);
        let cut = cut_at(text, 65536);
        let n = cut.len() as int;
        assert(text.take(n) == cut);
        assert(trimmed_output(text) == text.take(n) + "\n... truncated ..."@);
    }
}

proof fn lemma_cut(text: Seq<char>, all: Seq<char>)
    requires
        text.len() <= all.len(),
        all.take(text.len() as int) == text,
        utf8_len(text) > 65536,
    ensures
        ({
            let cut = cut_at(text, 65536);
            &&& cut.len() < text.len()
            &&& cut == all.take(cut.len() as int)
            &&& utf8_len(cut) <= 65536
            &&& utf8_len(all.take(cut.len() as int + 1)) > 65536
        }),
    decreases text.len(),
{
    let less = text.drop_last();
    if text.len() == 0 {
        assert(vstd::utf8::encode_utf8(text).len() == 0);
    } else {
        assert(all.take(less.len() as int) =~= less);
        assert(all.take(less.len() as int + 1) =~= text);
        if utf8_len(less) > 65536 {
            lemma_cut(less, all);
        } else {
            assert(cut_at(less, 65536) == less);
        }
    }
}

/// Of what a check wrote at most the first 65536 bytes are kept.
pub proof fn law_captured_output(bytes: Seq<u8>)
    ensures
        bytes.len() <= 65536 ==> capped_text(bytes) == crate::bytes::lossy_text(bytes),
        bytes.len() > 65536 ==> capped_text(bytes) == crate::bytes::lossy_text(bytes.take(65536)),
{
}

/// Each failed check gives a diagnostic of its kind and its file, in order;
/// checks that passed give none.
pub proof fn law_diagnostics(
    plan: Seq<PlannedView>,
    outcomes: Seq<Option<FailureView>>,
    n: nat,
)
    requires
        n < plan.len(),
        n < outcomes.len(),
    ensures
        diagnostics_from(plan, outcomes, 0) == Seq::<DiagnosticView>::empty(),
        outcomes[n as int] is None ==> diagnostics_from(plan, outcomes, n + 1) == diagnostics_from(
            plan,
            outcomes,
            n,
        ),
        outcomes[n as int] matches Some(failure) ==> diagnostics_from(plan, outcomes, n + 1)
            == diagnostics_from(plan, outcomes, n).push(
            DiagnosticView { kind: plan[n as int].kind, file: plan[n as int].file, failure },
        ),
{
}

// What was edited.

/// An entry counts for the session and the turn that noted it, and for a day.
pub proof fn law_entries_count(
    entry: PostEditView,
    session_id: Option<Seq<char>>,
    turn_id: Option<Seq<char>>,
    now: u64,
)
    ensures
        counts(entry, session_id, turn_id, now) <==> entry.session_id == session_id
            && entry.turn_id == turn_id && now <= entry.timestamp_unix + 86400,
{
}

/// The paths that are read are those of the entries that count, in order.
pub proof fn law_counted_paths(
    entries: Seq<PostEditView>,
    session_id: Option<Seq<char>>,
    turn_id: Option<Seq<char>>,
    now: u64,
)
    ensures
        counted_paths(entries, session_id, turn_id, now) == entries.filter(
            |entry: PostEditView|
                entry.session_id == session_id && entry.turn_id == turn_id && now
                    <= entry.timestamp_unix + 86400,
        ).map_values(|entry: PostEditView| entry.path),
    decreases entries.len(),
{
    reveal(Seq::filter);
    let keep = |entry: PostEditView|
        entry.session_id == session_id && entry.turn_id == turn_id && now <= entry.timestamp_unix
            + 86400;
    let path = |entry: PostEditView| entry.path;
    if entries.len() > 0 {
        law_counted_paths(entries.drop_last(), session_id, turn_id, now);
        let before = entries.drop_last().filter(keep);
        assert(before.push(entries.last()).map_values(path) =~= before.map_values(path).push(
            entries.last().path,
        ));
    } else {
        assert(entries.filter(keep).map_values(path) =~= Seq::<Seq<char>>::empty());
    }
}

} // verus!
