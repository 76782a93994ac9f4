//! What holds of all decisions: which commands are left to the shell, which are
//! done fast and which are noted as unknown.
use super::classify::{
    alters, command_list_of, decision, dynamic, first_name, interesting, is_one, is_program,
    lenient_operation, list_segments, names_of, part_shape, runs_program, segment_of, shape_word,
    shapes_of, single_operation, strict_operation, unknown_of, valid_powershell, DecisionView,
    PassThroughReason,
};
use super::commands::{
    bounded_read_of, content_search_of, directory_pipeline_of, find_measure_of, find_of,
    find_pipeline_of, find_projection_of, inspect_of, listing_of, search_of, slice_of,
};
use super::listing_laws::{listing_word, reading_word, search_word};
use super::filters::allowlisted;
use super::operation::{OperationView, SegmentView};
use super::reading_laws::{
    all_bare, bare, call, calm, law_call, law_pipe, lemma_call_is_calm, lemma_one_part,
    lemma_spelled, lemma_two_parts, lower_ascii, same_letter, spelled,
};
use super::words::{command_name, quote_after, tokens_of, unquoted, unquoted_from};
use crate::backends::projection::ReadOnlyExternalView;
use crate::case::{all_ascii, ascii_lowercase, lowered};
use crate::number::{decimal, law_number_round_trip};
use crate::split::joined;
use crate::text::{
    has_suffix, has_text, lemma_leading, lemma_trailing, occurs_at, trimmed_of, CharClass,
};
use crate::text_laws::{law_ends, law_tight, lemma_word_between};
use vstd::prelude::*;
use vstd::string::*;

verus! {

// Names.

/// Whether a character may stand at the end of a name: no quote and no `&`.
pub open spec fn edge(c: char) -> bool {
    c != '&' && c != '"' && c != '\''
}

proof fn lemma_trim_none(word: Seq<char>, c: char)
    requires
        word.len() > 0,
        word[0] != c && word.last() != c,
    ensures
        trimmed_of(word, CharClass::Only(c)) == word,
{
    lemma_leading(word, CharClass::Only(c), 0);
    assert(word.skip(0) =~= word);
    lemma_trailing(word, CharClass::Only(c), 0);
    assert(word.take(word.len() as int) =~= word);
}

proof fn lemma_name(word: Seq<char>)
    requires
        word.len() > 0,
        edge(word[0]) && edge(word.last()),
    ensures
        command_name(word) == lowered(word),
{
    lemma_trim_none(word, '&');
    lemma_trim_none(word, '"');
    lemma_trim_none(word, '\'');
}

/// The name of a command is its first word in lower case.
pub proof fn law_first_name(word: Seq<char>, lower: Seq<char>, args: Seq<Seq<char>>)
    requires
        spelled(word, lower),
        lower_ascii(lower) && lower.len() > 0 && edge(lower[0]) && edge(lower.last()),
        all_bare(seq![word] + args),
    ensures
        first_name(call(seq![word] + args)) == Some(lower),
{
    lemma_spelled(word, lower);
    assert(same_letter(word[0], lower[0]));
    assert(same_letter(word[word.len() - 1], lower[lower.len() - 1]));
    lemma_name(word);
    law_call(seq![word] + args);
    assert(super::commands::call_of(call(seq![word] + args)) is Some);
    lemma_tokens(seq![word] + args);
}

proof fn lemma_tokens(words: Seq<Seq<char>>)
    requires
        all_bare(words),
    ensures
        tokens_of(call(words)) == Some(words),
{
    reveal_strlit(" ");
    assert(" "@ =~= seq![' ']);
    assert forall|i: int| 0 <= i < words.len() implies super::laws::plain_word(
        #[trigger] words[i],
    ) by {
        assert(bare(words[i]));
        assert(words[i][0] != '"');
    }
    super::laws::law_words_of_joined(words);
}

// What is left to the shell.

/// Whether a word is a command that changes files, in any case.
pub open spec fn changing_word(word: Seq<char>) -> bool {
    ||| spelled(word, "remove-item"@)
    ||| spelled(word, "rm"@)
    ||| spelled(word, "rmdir"@)
    ||| spelled(word, "del"@)
    ||| spelled(word, "erase"@)
    ||| spelled(word, "move-item"@)
    ||| spelled(word, "mv"@)
    ||| spelled(word, "set-content"@)
    ||| spelled(word, "sc"@)
    ||| spelled(word, "new-item"@)
    ||| spelled(word, "ni"@)
    ||| spelled(word, "copy-item"@)
    ||| spelled(word, "cp"@)
    ||| spelled(word, "copy"@)
    ||| spelled(word, "rename-item"@)
    ||| spelled(word, "ren"@)
    ||| spelled(word, "clear-content"@)
    ||| spelled(word, "clc"@)
    ||| spelled(word, "out-file"@)
}

proof fn lemma_one_name(word: Seq<char>, lower: Seq<char>)
    requires
        spelled(word, lower),
        lower_ascii(lower) && lower.len() > 0,
        'a' <= lower[0] && lower[0] <= 'z' && 'a' <= lower.last() && lower.last() <= 'z',
    ensures
        command_name(word) == lower,
{
    lemma_spelled(word, lower);
    assert(same_letter(word[0], lower[0]));
    assert(same_letter(word[word.len() - 1], lower[lower.len() - 1]));
    lemma_name(word);
}

#[verifier::rlimit(40)]
proof fn lemma_changing(word: Seq<char>)
    requires
        changing_word(word),
    ensures
        super::classify::changes(command_name(word)),
{
    reveal_strlit("remove-item");
    reveal_strlit("rm");
    reveal_strlit("rmdir");
    reveal_strlit("del");
    reveal_strlit("erase");
    reveal_strlit("move-item");
    reveal_strlit("mv");
    reveal_strlit("set-content");
    reveal_strlit("sc");
    reveal_strlit("new-item");
    reveal_strlit("ni");
    reveal_strlit("copy-item");
    reveal_strlit("cp");
    reveal_strlit("copy");
    reveal_strlit("rename-item");
    reveal_strlit("ren");
    reveal_strlit("clear-content");
    reveal_strlit("clc");
    reveal_strlit("out-file");
    if spelled(word, "remove-item"@) {
        lemma_one_name(word, "remove-item"@);
    } else if spelled(word, "rm"@) {
        lemma_one_name(word, "rm"@);
    } else if spelled(word, "rmdir"@) {
        lemma_one_name(word, "rmdir"@);
    } else if spelled(word, "del"@) {
        lemma_one_name(word, "del"@);
    } else if spelled(word, "erase"@) {
        lemma_one_name(word, "erase"@);
    } else if spelled(word, "move-item"@) {
        lemma_one_name(word, "move-item"@);
    } else if spelled(word, "mv"@) {
        lemma_one_name(word, "mv"@);
    } else if spelled(word, "set-content"@) {
        lemma_one_name(word, "set-content"@);
    } else if spelled(word, "sc"@) {
        lemma_one_name(word, "sc"@);
    } else if spelled(word, "new-item"@) {
        lemma_one_name(word, "new-item"@);
    } else if spelled(word, "ni"@) {
        lemma_one_name(word, "ni"@);
    } else if spelled(word, "copy-item"@) {
        lemma_one_name(word, "copy-item"@);
    } else if spelled(word, "cp"@) {
        lemma_one_name(word, "cp"@);
    } else if spelled(word, "copy"@) {
        lemma_one_name(word, "copy"@);
    } else if spelled(word, "rename-item"@) {
        lemma_one_name(word, "rename-item"@);
    } else if spelled(word, "ren"@) {
        lemma_one_name(word, "ren"@);
    } else if spelled(word, "clear-content"@) {
        lemma_one_name(word, "clear-content"@);
    } else if spelled(word, "clc"@) {
        lemma_one_name(word, "clc"@);
    } else {
        lemma_one_name(word, "out-file"@);
    }
}

/// A command that changes files is never done fast, whatever else could be
/// made of it, and no list holds it.
pub proof fn law_changes_are_left(
    word: Seq<char>,
    args: Seq<Seq<char>>,
    cwd: Option<Seq<char>>,
    list: Option<OperationView>,
    script: Option<OperationView>,
    valid: bool,
)
    requires
        changing_word(word),
        all_bare(seq![word] + args),
    ensures
        ({
            let command = call(seq![word] + args);
            &&& decision(command, cwd, list, script, valid) == DecisionView::PassThrough(
                if dynamic(command) {
                    PassThroughReason::DynamicOrUnsafe
                } else {
                    PassThroughReason::Mutating
                },
            )
            &&& segment_of(command, cwd, valid) is None
        }),
{
    let words = seq![word] + args;
    lemma_changing(word);
    lemma_tokens(words);
    lemma_call_is_calm(words);
    assert(words[0] == word);
    let command = call(words);
    assert(alters(command));
    assert(segment_of(command, cwd, valid) is None) by {
        reveal(segment_of);
    }
    assert(command.len() > 0);
}

/// A command that writes to a file is never done fast.
pub proof fn law_redirections_are_left(
    p: Seq<char>,
    q: Seq<char>,
    cwd: Option<Seq<char>>,
    list: Option<OperationView>,
    script: Option<OperationView>,
    valid: bool,
)
    requires
        !p.contains('"') && !p.contains('\''),
    ensures
        ({
            let command = p + seq!['>'] + q;
            &&& decision(command, cwd, list, script, valid) == DecisionView::PassThrough(
                if dynamic(command) {
                    PassThroughReason::DynamicOrUnsafe
                } else {
                    PassThroughReason::Mutating
                },
            )
            &&& segment_of(command, cwd, valid) is None
        }),
{
    lemma_unquoted(p, q);
    let command = p + seq!['>'] + q;
    assert(alters(command));
    assert(segment_of(command, cwd, valid) is None) by {
        reveal(segment_of);
    }
    assert(command.len() > 0);
}

proof fn lemma_unquoted(p: Seq<char>, q: Seq<char>)
    requires
        !p.contains('"') && !p.contains('\''),
    ensures
        unquoted(p + seq!['>'] + q, '>'),
    decreases p.len(),
{
    let s = p + seq!['>'] + q;
    if p.len() == 0 {
        assert(s[0] == '>');
    } else {
        assert(s[0] == p[0]);
        assert(p.contains(p[0]));
        let rest = p.skip(1);
        assert(!rest.contains('"') && !rest.contains('\'')) by {
            if rest.contains('"') {
                let i = rest.index_of('"');
                assert(p[i + 1] == '"');
            }
            if rest.contains('\'') {
                let i = rest.index_of('\'');
                assert(p[i + 1] == '\'');
            }
        }
        lemma_unquoted(rest, q);
        assert(s.skip(1) =~= rest + seq!['>'] + q);
        assert(quote_after(None, s[0]) == None::<char>);
    }
}

/// A command that builds commands is left to the shell before anything else.
#[verifier::rlimit(40)]
pub proof fn law_dynamic_is_left(
    p: Seq<char>,
    word: Seq<char>,
    q: Seq<char>,
    cwd: Option<Seq<char>>,
    list: Option<OperationView>,
    script: Option<OperationView>,
    valid: bool,
)
    requires
        word == "$("@ || word == seq!['`'] || (all_ascii(p + word + q) && (spelled(word, "iex"@)
            || spelled(word, "invoke-expression"@))),
    ensures
        decision(p + word + q, cwd, list, script, valid) == DecisionView::PassThrough(
            PassThroughReason::DynamicOrUnsafe,
        ),
{
    reveal_strlit("$(");
    reveal_strlit("iex");
    reveal_strlit("invoke-expression");
    let s = p + word + q;
    assert(s.len() > 0);
    if word == "$("@ {
        lemma_word_between(p, word, q);
        assert(occurs_at(s, word, p.len() as int)) by {
            assert(s.subrange(p.len() as int, p.len() as int + word.len()) =~= word);
        }
        assert(has_text(s, "$("@));
    } else if word == seq!['`'] {
        assert(s[p.len() as int] == '`');
        assert(s.contains('`'));
    } else {
        let lower = if spelled(word, "iex"@) {
            "iex"@
        } else {
            "invoke-expression"@
        };
        lemma_spelled(word, lower);
        let t = lowered(s);
        assert(t == ascii_lowercase(s));
        let at = p.len() as int;
        assert(t.subrange(at, at + lower.len()) =~= lower) by {
            assert forall|i: int| 0 <= i < lower.len() implies t.subrange(at, at + lower.len())[i]
                == lower[i] by {
                assert(t[at + i] == crate::case::ascii_lower(s[at + i]));
                assert(s[at + i] == word[i]);
                assert(ascii_lowercase(word)[i] == lower[i]);
            }
        }
        assert(occurs_at(t, lower, at));
        assert(has_text(t, lower));
    }
}

/// A command without any of the signs of building commands is not left for
/// that reason.
pub proof fn law_not_dynamic(command: Seq<char>)
    requires
        all_ascii(command),
        !command.contains('$') && !command.contains('`') && !command.contains('x')
            && !command.contains('X'),
    ensures
        !dynamic(command),
{
    reveal_strlit("$(");
    reveal_strlit("iex");
    reveal_strlit("invoke-expression");
    if has_text(command, "$("@) {
        let at = choose|at: int| #[trigger] occurs_at(command, "$("@, at);
        assert(command.subrange(at, at + 2)[0] == '$');
        assert(command[at] == '$');
    }
    let t = lowered(command);
    assert forall|i: int| 0 <= i < t.len() implies #[trigger] t[i] != 'x' by {
        assert(t[i] == crate::case::ascii_lower(command[i]));
        assert(command.contains(command[i]));
    }
    if has_text(t, "iex"@) {
        let at = choose|at: int| #[trigger] occurs_at(t, "iex"@, at);
        assert(t.subrange(at, at + 3)[2] == "iex"@[2]);
        assert(t[at + 2] == 'x');
    }
    if has_text(t, "invoke-expression"@) {
        let at = choose|at: int| #[trigger] occurs_at(t, "invoke-expression"@, at);
        assert(t.subrange(at, at + 17)[8] == "invoke-expression"@[8]);
        assert(t[at + 8] == 'x');
    }
}

/// Whether a word is the name of a program, in any case.
pub open spec fn program_word(word: Seq<char>) -> bool {
    ||| spelled(word, "git"@)
    ||| spelled(word, "cargo"@)
    ||| spelled(word, "rg"@)
    ||| spelled(word, "fd"@)
    ||| spelled(word, "node"@)
    ||| spelled(word, "python"@)
    ||| spelled(word, "python3"@)
    ||| spelled(word, "py"@)
    ||| spelled(word, "pwsh"@)
    ||| spelled(word, "powershell"@)
    ||| spelled(word, "cmd"@)
    ||| spelled(word, "docker"@)
    ||| spelled(word, "npm"@)
    ||| spelled(word, "pnpm"@)
    ||| spelled(word, "bun"@)
    ||| spelled(word, "uv"@)
}

#[verifier::rlimit(40)]
proof fn lemma_program(word: Seq<char>)
    requires
        program_word(word),
    ensures
        is_program(command_name(word)),
{
    reveal_strlit("git");
    reveal_strlit("cargo");
    reveal_strlit("rg");
    reveal_strlit("fd");
    reveal_strlit("node");
    reveal_strlit("python");
    reveal_strlit("python3");
    reveal_strlit("py");
    reveal_strlit("pwsh");
    reveal_strlit("powershell");
    reveal_strlit("cmd");
    reveal_strlit("docker");
    reveal_strlit("npm");
    reveal_strlit("pnpm");
    reveal_strlit("bun");
    reveal_strlit("uv");
    if spelled(word, "git"@) {
        lemma_one_name(word, "git"@);
    } else if spelled(word, "cargo"@) {
        lemma_one_name(word, "cargo"@);
    } else if spelled(word, "rg"@) {
        lemma_one_name(word, "rg"@);
    } else if spelled(word, "fd"@) {
        lemma_one_name(word, "fd"@);
    } else if spelled(word, "node"@) {
        lemma_one_name(word, "node"@);
    } else if spelled(word, "python"@) {
        lemma_one_name(word, "python"@);
    } else if spelled(word, "python3"@) {
        lemma_spelled(word, "python3"@);
        assert(same_letter(word[0], "python3"@[0]));
        assert(same_letter(word[6], "python3"@[6]));
        lemma_name(word);
    } else if spelled(word, "py"@) {
        lemma_one_name(word, "py"@);
    } else if spelled(word, "pwsh"@) {
        lemma_one_name(word, "pwsh"@);
    } else if spelled(word, "powershell"@) {
        lemma_one_name(word, "powershell"@);
    } else if spelled(word, "cmd"@) {
        lemma_one_name(word, "cmd"@);
    } else if spelled(word, "docker"@) {
        lemma_one_name(word, "docker"@);
    } else if spelled(word, "npm"@) {
        lemma_one_name(word, "npm"@);
    } else if spelled(word, "pnpm"@) {
        lemma_one_name(word, "pnpm"@);
    } else if spelled(word, "bun"@) {
        lemma_one_name(word, "bun"@);
    } else {
        lemma_one_name(word, "uv"@);
    }
}

/// A program is left to the shell: one of the known names, a path, or a file
/// that can be run.
pub proof fn law_programs_are_left(
    word: Seq<char>,
    args: Seq<Seq<char>>,
    cwd: Option<Seq<char>>,
    script: Option<OperationView>,
    valid: bool,
)
    requires
        all_bare(seq![word] + args),
        program_word(word) || (lower_ascii(word) && edge(word[0]) && edge(word.last()) && (
        word.contains('/') || word.contains('\\') || word[0] == '.' || exists|stem: Seq<char>|
            #![trigger stem + ".exe"@]
            word == stem + ".exe"@ || word == stem + ".cmd"@ || word == stem + ".bat"@ || word
                == stem + ".ps1"@)),
        !dynamic(call(seq![word] + args)),
        !alters(call(seq![word] + args)),
        !call(seq![word] + args).contains('>'),
    ensures
        decision(call(seq![word] + args), cwd, None, script, valid) == DecisionView::PassThrough(
            PassThroughReason::ExternalProgram,
        ),
{
    let words = seq![word] + args;
    lemma_tokens(words);
    lemma_call_is_calm(words);
    assert(words[0] == word);
    assert(bare(words[0]));
    if program_word(word) {
        lemma_program(word);
    } else {
        lemma_name(word);
        assert(spelled(word, word));
        lemma_spelled(word, word);
        if !(word.contains('/') || word.contains('\\') || word[0] == '.') {
            let stem = choose|stem: Seq<char>|
                #![trigger stem + ".exe"@]
                word == stem + ".exe"@ || word == stem + ".cmd"@ || word == stem + ".bat"@ || word
                    == stem + ".ps1"@;
            law_ends(stem, ".exe"@);
            law_ends(stem, ".cmd"@);
            law_ends(stem, ".bat"@);
            law_ends(stem, ".ps1"@);
        }
    }
}

// What is looked at.

/// Whether a word is a command that lists, reads, searches or belongs to a
/// pipeline, in any case.
pub open spec fn file_word(word: Seq<char>) -> bool {
    ||| listing_word(word)
    ||| reading_word(word)
    ||| search_word(word)
    ||| spelled(word, "select-object"@)
    ||| spelled(word, "select"@)
    ||| spelled(word, "where-object"@)
    ||| spelled(word, "where"@)
    ||| spelled(word, "?"@)
    ||| spelled(word, "sort-object"@)
    ||| spelled(word, "sort"@)
    ||| spelled(word, "measure-object"@)
    ||| spelled(word, "measure"@)
}

#[verifier::rlimit(40)]
proof fn lemma_file_word(word: Seq<char>)
    requires
        file_word(word),
    ensures
        interesting(command_name(word)),
        command_name(word) == lowered(word),
{
    reveal_strlit("get-childitem");
    reveal_strlit("gci");
    reveal_strlit("dir");
    reveal_strlit("ls");
    reveal_strlit("get-content");
    reveal_strlit("gc");
    reveal_strlit("cat");
    reveal_strlit("type");
    reveal_strlit("select-string");
    reveal_strlit("sls");
    reveal_strlit("select-object");
    reveal_strlit("select");
    reveal_strlit("where-object");
    reveal_strlit("where");
    reveal_strlit("?");
    reveal_strlit("sort-object");
    reveal_strlit("sort");
    reveal_strlit("measure-object");
    reveal_strlit("measure");
    if spelled(word, "get-childitem"@) {
        lemma_one_name(word, "get-childitem"@);
    } else if spelled(word, "gci"@) {
        lemma_one_name(word, "gci"@);
    } else if spelled(word, "dir"@) {
        lemma_one_name(word, "dir"@);
    } else if spelled(word, "ls"@) {
        lemma_one_name(word, "ls"@);
    } else if spelled(word, "get-content"@) {
        lemma_one_name(word, "get-content"@);
    } else if spelled(word, "gc"@) {
        lemma_one_name(word, "gc"@);
    } else if spelled(word, "cat"@) {
        lemma_one_name(word, "cat"@);
    } else if spelled(word, "type"@) {
        lemma_one_name(word, "type"@);
    } else if spelled(word, "select-string"@) {
        lemma_one_name(word, "select-string"@);
    } else if spelled(word, "sls"@) {
        lemma_one_name(word, "sls"@);
    } else if spelled(word, "select-object"@) {
        lemma_one_name(word, "select-object"@);
    } else if spelled(word, "select"@) {
        lemma_one_name(word, "select"@);
    } else if spelled(word, "where-object"@) {
        lemma_one_name(word, "where-object"@);
    } else if spelled(word, "where"@) {
        lemma_one_name(word, "where"@);
    } else if spelled(word, "?"@) {
        lemma_spelled(word, "?"@);
        assert(same_letter(word[0], "?"@[0]));
        lemma_name(word);
    } else if spelled(word, "sort-object"@) {
        lemma_one_name(word, "sort-object"@);
    } else if spelled(word, "sort"@) {
        lemma_one_name(word, "sort"@);
    } else if spelled(word, "measure-object"@) {
        lemma_one_name(word, "measure-object"@);
    } else {
        lemma_one_name(word, "measure"@);
    }
    assert(word.len() > 0 && edge(word[0]) && edge(word.last())) by {
        if word.len() > 0 {
            lemma_edges(word);
        }
    }
    lemma_name(word);
}

proof fn lemma_edges(word: Seq<char>)
    requires
        file_word(word),
        word.len() > 0,
    ensures
        edge(word[0]) && edge(word.last()),
{
    reveal_strlit("get-childitem");
    reveal_strlit("gci");
    reveal_strlit("dir");
    reveal_strlit("ls");
    reveal_strlit("get-content");
    reveal_strlit("gc");
    reveal_strlit("cat");
    reveal_strlit("type");
    reveal_strlit("select-string");
    reveal_strlit("sls");
    reveal_strlit("select-object");
    reveal_strlit("select");
    reveal_strlit("where-object");
    reveal_strlit("where");
    reveal_strlit("?");
    reveal_strlit("sort-object");
    reveal_strlit("sort");
    reveal_strlit("measure-object");
    reveal_strlit("measure");
    assert(word[0] == word[0] && word[word.len() - 1] == word.last());
}

/// A call of a file command that is not read is noted as unknown, with the
/// reason; one that is read is done fast, and most of them only where the
/// shell would take the command.
pub proof fn law_file_commands(
    word: Seq<char>,
    args: Seq<Seq<char>>,
    cwd: Option<Seq<char>>,
    valid: bool,
)
    requires
        file_word(word),
        all_bare(seq![word] + args),
        !dynamic(call(seq![word] + args)),
        !alters(call(seq![word] + args)),
        !call(seq![word] + args).contains('>'),
        !runs_program(call(seq![word] + args)),
    ensures
        ({
            let command = call(seq![word] + args);
            let made = decision(command, cwd, None, None, valid);
            &&& lenient_operation(command, cwd) matches Some(operation) ==> made
                == DecisionView::Fast(operation)
            &&& lenient_operation(command, cwd) is None && !valid ==> made
                == DecisionView::UnknownCandidate(
                unknown_of(command, "invalid_or_unsupported_powershell_shape"@),
            )
            &&& lenient_operation(command, cwd) is None && valid ==> (strict_operation(
                command,
                cwd,
            ) matches Some(operation) ==> made == DecisionView::Fast(operation))
            &&& lenient_operation(command, cwd) is None && valid && strict_operation(command, cwd)
                is None ==> made == DecisionView::UnknownCandidate(
                unknown_of(command, "unsupported_file_command_shape"@),
            )
        }),
{
    let words = seq![word] + args;
    lemma_tokens(words);
    lemma_call_is_calm(words);
    lemma_one_part(call(words), ';');
    assert(words[0] == word);
    lemma_file_word(word);
    assert(is_one(call(words)));
}

/// A list or a script that was read is done fast; an empty command is left to
/// the shell.
pub proof fn law_lists_and_scripts(
    command: Seq<char>,
    cwd: Option<Seq<char>>,
    list: OperationView,
    script: OperationView,
    valid: bool,
)
    requires
        command.len() > 0,
        !dynamic(command) && !alters(command),
    ensures
        decision(command, cwd, Some(list), None, valid) == DecisionView::Fast(list),
        decision(command, cwd, Some(list), Some(script), valid) == DecisionView::Fast(list),
        !command.contains('>') && !runs_program(command) ==> decision(
            command,
            cwd,
            None,
            Some(script),
            valid,
        ) == DecisionView::Fast(script),
        decision(Seq::empty(), cwd, None, None, valid) == DecisionView::PassThrough(
            PassThroughReason::NotAFileCommand,
        ),
{
}

/// What a single command is read as: one of the operations that it could be,
/// and none only where it could be none of them.
pub proof fn law_single_operation(command: Seq<char>, cwd: Option<Seq<char>>)
    ensures
        single_operation(command, cwd) is None <==> slice_of(command) is None && content_search_of(
            command,
        ) is None && find_projection_of(command, cwd) is None && find_pipeline_of(command, cwd)
            is None && find_measure_of(command, cwd) is None && directory_pipeline_of(command, cwd)
            is None && listing_of(command, cwd, true) is None && search_of(command, cwd) is None
            && inspect_of(command) is None && bounded_read_of(command) is None && find_of(
            command,
            cwd,
        ) is None,
        strict_operation(command, cwd) is None <==> slice_of(command) is None && content_search_of(
            command,
        ) is None && search_of(command, cwd) is None && inspect_of(command) is None
            && bounded_read_of(command) is None && find_of(command, cwd) is None && listing_of(
            command,
            cwd,
            false,
        ) is None,
        lenient_operation(command, cwd) is None <==> find_projection_of(command, cwd) is None
            && find_pipeline_of(command, cwd) is None && find_measure_of(command, cwd) is None
            && directory_pipeline_of(command, cwd) is None,
{
}

/// Two commands with a semicolon between them are a list of what each of them
/// is, in order, and no list where one of them cannot be done.
pub proof fn law_two_commands(a: Seq<char>, b: Seq<char>, cwd: Option<Seq<char>>)
    requires
        calm(a) && calm(b),
    ensures
        ({
            let first = segment_of(a, cwd, valid_powershell(a));
            let second = segment_of(b, cwd, valid_powershell(b));
            let list = command_list_of(a + seq![' ', ';', ' '] + b, cwd);
            &&& first is Some && second is Some ==> list == Some(
                OperationView::CommandList(seq![first->0, second->0]),
            )
            &&& first is None || second is None ==> list is None
            &&& command_list_of(a, cwd) is None
        }),
{
    lemma_two_parts(a, b, ';');
    lemma_one_part(a, ';');
    law_tight(a);
    law_tight(b);
    reveal_with_fuel(list_segments, 3);
    let parts = seq![a, b];
    assert(parts.drop_last() =~= seq![a]);
    assert(seq![a].drop_last() =~= Seq::<Seq<char>>::empty());
    let first = segment_of(a, cwd, valid_powershell(a));
    let second = segment_of(b, cwd, valid_powershell(b));
    if first is Some && second is Some {
        assert(Seq::empty().push(first->0).push(second->0) =~= seq![first->0, second->0]);
    }
}

/// A part of a list is a program call that is allowed, with its words, or else
/// what the command alone is done as.
pub proof fn law_segments(words: Seq<Seq<char>>, cwd: Option<Seq<char>>, valid: bool)
    requires
        all_bare(words),
        !alters(call(words)) && !dynamic(call(words)),
    ensures
        ({
            let command = call(words);
            let external = ReadOnlyExternalView { program: lowered(words[0]), args: words.skip(1) };
            let segment = segment_of(command, cwd, valid);
            &&& allowlisted(external) ==> segment == Some(SegmentView::ReadOnlyExternal(external))
            &&& !allowlisted(external) && valid ==> (single_operation(command, cwd) matches Some(
                operation,
            ) ==> segment == Some(SegmentView::Operation(Box::new(operation))))
            &&& !allowlisted(external) && (!valid || single_operation(command, cwd) is None)
                ==> segment is None
        }),
{
    reveal(segment_of);
    law_call(words);
    lemma_call_is_calm(words);
    law_tight(call(words));
}

// What is noted.

/// The shape of a command keeps its commands and its options in lower case and
/// hides everything else; numbers are told apart.
pub proof fn law_shape_words(word: Seq<char>, option: Seq<char>, lower: Seq<char>, n: usize)
    requires
        file_word(word),
        spelled(option, lower) && lower_ascii(lower) && lower.len() > 0 && lower[0] == '-',
        edge(lower.last()),
    ensures
        shape_word(word) == lowered(word),
        shape_word(option) == lower,
        shape_word(decimal(n as nat)) == "<number>"@,
{
    lemma_file_word(word);
    lemma_spelled(option, lower);
    assert(same_letter(option[0], lower[0]));
    assert(same_letter(option[option.len() - 1], lower[lower.len() - 1]));
    lemma_name(option);
    law_number_round_trip(n);
    let d = decimal(n as nat);
    lemma_digits(n as nat);
    lemma_name(d);
    assert(spelled(d, d));
    lemma_spelled(d, d);
    lemma_not_a_name(d);
}

proof fn lemma_digits(n: nat)
    ensures
        decimal(n).len() > 0,
        forall|i: int|
            0 <= i < decimal(n).len() ==> '0' <= #[trigger] decimal(n)[i] && decimal(n)[i] <= '9',
    decreases n,
{
    if n >= 10 {
        lemma_digits(n / 10);
        let init = decimal(n / 10);
        let all = decimal(n);
        assert(all =~= init.push(crate::number::digit(n % 10)));
        assert forall|i: int| 0 <= i < all.len() implies '0' <= #[trigger] all[i] && all[i]
            <= '9' by {
            if i < init.len() {
                assert(all[i] == init[i]);
            }
        }
    } else {
        assert(decimal(n)[0] == crate::number::digit(n));
    }
}

#[verifier::rlimit(40)]
proof fn lemma_not_a_name(d: Seq<char>)
    requires
        d.len() > 0,
        forall|i: int| 0 <= i < d.len() ==> '0' <= #[trigger] d[i] && d[i] <= '9',
    ensures
        !interesting(d) && !is_program(d),
{
    reveal_strlit(".exe");
    reveal_strlit(".cmd");
    reveal_strlit(".bat");
    reveal_strlit(".ps1");
    assert('0' <= d[0] && d[0] <= '9');
    lemma_not_interesting(d);
    lemma_not_program_name(d);
    let n = d.len() as int;
    if has_suffix(d, ".exe"@) {
        assert(d.subrange(n - 4, n)[0] == d[n - 4]);
    }
    if has_suffix(d, ".cmd"@) {
        assert(d.subrange(n - 4, n)[0] == d[n - 4]);
    }
    if has_suffix(d, ".bat"@) {
        assert(d.subrange(n - 4, n)[0] == d[n - 4]);
    }
    if has_suffix(d, ".ps1"@) {
        assert(d.subrange(n - 4, n)[0] == d[n - 4]);
    }
    if d.contains('/') {
        assert(d[d.index_of('/')] == '/');
    }
    if d.contains('\\') {
        assert(d[d.index_of('\\')] == '\\');
    }
}

proof fn lemma_not_interesting(d: Seq<char>)
    requires
        d.len() > 0,
        '0' <= d[0] && d[0] <= '9',
    ensures
        !interesting(d),
{
    reveal_strlit("get-childitem");
    reveal_strlit("gci");
    reveal_strlit("dir");
    reveal_strlit("ls");
    reveal_strlit("get-content");
    reveal_strlit("gc");
    reveal_strlit("cat");
    reveal_strlit("type");
    reveal_strlit("select-string");
    reveal_strlit("sls");
    reveal_strlit("select-object");
    reveal_strlit("select");
    reveal_strlit("where-object");
    reveal_strlit("where");
    reveal_strlit("?");
    reveal_strlit("sort-object");
    reveal_strlit("sort");
    reveal_strlit("measure-object");
    reveal_strlit("measure");
}

proof fn lemma_not_program_name(d: Seq<char>)
    requires
        d.len() > 0,
        '0' <= d[0] && d[0] <= '9',
    ensures
        !program_word(d),
        d != "git"@ && d != "cargo"@ && d != "rg"@ && d != "fd"@ && d != "node"@ && d != "python"@
            && d != "python3"@ && d != "py"@ && d != "pwsh"@ && d != "powershell"@ && d != "cmd"@
            && d != "docker"@ && d != "npm"@ && d != "pnpm"@ && d != "bun"@ && d != "uv"@,
{
    reveal_strlit("git");
    reveal_strlit("cargo");
    reveal_strlit("rg");
    reveal_strlit("fd");
    reveal_strlit("node");
    reveal_strlit("python");
    reveal_strlit("python3");
    reveal_strlit("py");
    reveal_strlit("pwsh");
    reveal_strlit("powershell");
    reveal_strlit("cmd");
    reveal_strlit("docker");
    reveal_strlit("npm");
    reveal_strlit("pnpm");
    reveal_strlit("bun");
    reveal_strlit("uv");
}

/// The shape of a command is that of its words, and of a pipeline that of its
/// parts with pipes between them; its names are those of its parts.
#[verifier::rlimit(40)]
pub proof fn law_noted(left: Seq<Seq<char>>, right: Seq<Seq<char>>, reason: Seq<char>)
    requires
        all_bare(left) && all_bare(right),
    ensures
        ({
            let l = joined(left.map_values(|w: Seq<char>| shape_word(w)), seq![' ']);
            let r = joined(right.map_values(|w: Seq<char>| shape_word(w)), seq![' ']);
            let single = unknown_of(call(left), reason);
            let piped = unknown_of(call(left) + seq![' ', '|', ' '] + call(right), reason);
            &&& single.reason == reason && piped.reason == reason
            &&& single.first_command == Some(command_name(left[0]))
            &&& piped.first_command == Some(command_name(left[0]))
            &&& single.pipeline_commands == seq![command_name(left[0])]
            &&& piped.pipeline_commands == seq![command_name(left[0]), command_name(right[0])]
            &&& single.normalized_shape == l
            &&& piped.normalized_shape == l + seq![' ', '|', ' '] + r
        }),
{
    reveal_strlit(" ");
    reveal_strlit(" | ");
    assert(" "@ =~= seq![' ']);
    assert(" | "@ =~= seq![' ', '|', ' ']);
    lemma_tokens(left);
    lemma_tokens(right);
    law_call(left);
    law_pipe(left, right);
    let a = call(left);
    let b = call(right);
    reveal_with_fuel(names_of, 3);
    reveal_with_fuel(shapes_of, 3);
    reveal_with_fuel(joined, 3);
    let one = seq![a];
    let two = seq![a, b];
    assert(one.drop_last() =~= Seq::<Seq<char>>::empty());
    assert(two.drop_last() =~= one);
    assert(names_of(one) =~= seq![command_name(left[0])]);
    assert(names_of(two) =~= seq![command_name(left[0]), command_name(right[0])]);
    let l = part_shape(left);
    let r = part_shape(right);
    assert(shapes_of(one) =~= seq![l]);
    assert(shapes_of(two) =~= seq![l, r]);
    assert(seq![l, r].drop_last() =~= seq![l]);
    assert(left.map_values(|w: Seq<char>| shape_word(w)) =~= left.map_values(
        |t: Seq<char>| shape_word(t),
    ));
}

// What is not known.

/// Whether a name is none of those that are known: of commands that change
/// files, of programs and of file commands.
pub open spec fn unheard(name: Seq<char>) -> bool {
    &&& name != "remove-item"@ && name != "rm"@ && name != "rmdir"@ && name != "del"@ && name != "erase"@ && name != "move-item"@ && name != "mv"@ && name != "set-content"@ && name != "sc"@ && name != "new-item"@ && name != "ni"@ && name != "copy-item"@ && name != "cp"@ && name != "copy"@ && name != "rename-item"@ && name != "ren"@ && name != "clear-content"@ && name != "clc"@ && name != "out-file"@
    &&& name != "git"@ && name != "cargo"@ && name != "rg"@ && name != "fd"@ && name != "node"@ && name != "python"@ && name != "python3"@ && name != "py"@ && name != "pwsh"@ && name != "powershell"@ && name != "cmd"@ && name != "docker"@ && name != "npm"@ && name != "pnpm"@ && name != "bun"@ && name != "uv"@
    &&& name != "get-childitem"@ && name != "gci"@ && name != "dir"@ && name != "ls"@ && name != "get-content"@ && name != "gc"@ && name != "cat"@ && name != "type"@ && name != "select-string"@ && name != "sls"@ && name != "select-object"@ && name != "select"@ && name != "where-object"@ && name != "where"@ && name != "?"@ && name != "sort-object"@ && name != "sort"@ && name != "measure-object"@ && name != "measure"@
}

proof fn lemma_not_unquoted(s: Seq<char>, c: char, quote: Option<char>)
    requires
        !s.contains(c),
    ensures
        !unquoted_from(s, c, quote),
    decreases s.len(),
{
    if s.len() > 0 {
        assert(s.contains(s[0]));
        assert(!s.skip(1).contains(c)) by {
            if s.skip(1).contains(c) {
                let i = s.skip(1).index_of(c);
                assert(s[i + 1] == c);
            }
        }
        lemma_not_unquoted(s.skip(1), c, quote_after(quote, s[0]));
    }
}

/// A command that is none of those that are known is taken for a program and
/// left to the shell; it does not count as one that changes files.
pub proof fn law_other_commands(
    word: Seq<char>,
    lower: Seq<char>,
    args: Seq<Seq<char>>,
    cwd: Option<Seq<char>>,
    script: OperationView,
    valid: bool,
)
    requires
        spelled(word, lower),
        lower_ascii(lower) && lower.len() > 0,
        'a' <= lower[0] && lower[0] <= 'z' && 'a' <= lower.last() && lower.last() <= 'z',
        unheard(lower),
        !lower.contains('.') && !lower.contains('/') && !lower.contains('\\'),
        all_bare(seq![word] + args),
        !dynamic(call(seq![word] + args)),
        !call(seq![word] + args).contains('>'),
    ensures
        decision(call(seq![word] + args), cwd, None, None, valid) == DecisionView::PassThrough(
            PassThroughReason::ExternalProgram,
        ),
        decision(call(seq![word] + args), cwd, None, Some(script), valid) == DecisionView::Fast(
            script,
        ),
        !alters(call(seq![word] + args)),
{
    let words = seq![word] + args;
    let command = call(words);
    lemma_one_name(word, lower);
    lemma_tokens(words);
    lemma_call_is_calm(words);
    assert(words[0] == word);
    assert(first_name(command) == Some(lower));
    lemma_not_unquoted(command, '>', None);
    lemma_no_program(lower);
}

proof fn lemma_no_program(lower: Seq<char>)
    requires
        lower.len() > 0 && 'a' <= lower[0] && lower[0] <= 'z',
        unheard(lower),
        !lower.contains('.') && !lower.contains('/') && !lower.contains('\\'),
    ensures
        !is_program(lower),
{
    reveal_strlit(".exe");
    reveal_strlit(".cmd");
    reveal_strlit(".bat");
    reveal_strlit(".ps1");
    let n = lower.len() as int;
    if has_suffix(lower, ".exe"@) || has_suffix(lower, ".cmd"@) || has_suffix(lower, ".bat"@)
        || has_suffix(lower, ".ps1"@) {
        assert(lower.subrange(n - 4, n)[0] == lower[n - 4]);
        assert(lower.contains('.'));
    }
}

} // verus!
