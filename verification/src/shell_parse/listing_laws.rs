//! What holds of all commands that list files: which options they take, and
//! what a pipeline behind them is read as.
use super::arguments::{
    argument_list, fragments, gci_listing, gci_scan, gci_search, list_tail, no_gci, path_fragment,
    GciView,
};
use super::commands::{
    bounded_read_of, call_of, find_of, inspect_of, listing_of, measure_part, search_of, with_step,
    without_layout, StepsView,
};
use super::operation::OperationView;
use super::reading_laws::{all_bare, bare, call, law_call, lemma_spelled, lower_ascii, spelled};
use crate::backends::directory::DirectoryListView;
use crate::backends::everything::FindQueryView;
use crate::backends::projection::{FindProjectionView, ProjectionView};
use crate::case::lowered;
use crate::split::split_on;
use crate::text::{has_prefix, lemma_leading, trimmed, trimmed_start, CharClass};
use crate::text_laws::{law_split, law_tight};
use vstd::prelude::*;
use vstd::string::*;

verus! {

// Names.

pub proof fn lemma_call_named(word: Seq<char>, lower: Seq<char>, args: Seq<Seq<char>>)
    requires
        spelled(word, lower),
        lower_ascii(lower),
        all_bare(seq![word] + args),
    ensures
        call_of(call(seq![word] + args)) == Some((lower, args)),
        !call(seq![word] + args).contains('|'),
        super::words::parts_of(call(seq![word] + args), '|') == Some(
            seq![call(seq![word] + args)],
        ),
{
    law_call(seq![word] + args);
    lemma_spelled(word, lower);
    assert((seq![word] + args).skip(1) =~= args);
}

/// Whether a word is one of the names of a listing, in any case.
pub open spec fn listing_word(word: Seq<char>) -> bool {
    spelled(word, "get-childitem"@) || spelled(word, "gci"@) || spelled(word, "dir"@) || spelled(
        word,
        "ls"@,
    )
}

/// Whether a word is one of the names of a reading, in any case.
pub open spec fn reading_word(word: Seq<char>) -> bool {
    spelled(word, "get-content"@) || spelled(word, "gc"@) || spelled(word, "cat"@) || spelled(
        word,
        "type"@,
    )
}

/// Whether a word is one of the names of a search, in any case.
pub open spec fn search_word(word: Seq<char>) -> bool {
    spelled(word, "select-string"@) || spelled(word, "sls"@)
}

/// Whether two words are names of one step of a pipeline, in any case.
pub open spec fn same_step(a: Seq<char>, b: Seq<char>) -> bool {
    ||| (spelled(a, "where-object"@) && (spelled(b, "where"@) || spelled(b, "?"@)))
    ||| (spelled(a, "sort-object"@) && spelled(b, "sort"@))
    ||| (spelled(a, "select-object"@) && spelled(b, "select"@))
    ||| (spelled(a, "measure-object"@) && spelled(b, "measure"@))
}

/// Whether a word is one of the names of a layout, in any case.
pub open spec fn layout_word(word: Seq<char>) -> bool {
    spelled(word, "format-table"@) || spelled(word, "ft"@) || spelled(word, "format-list"@)
        || spelled(word, "fl"@)
}

pub proof fn lemma_listing_word(word: Seq<char>, args: Seq<Seq<char>>)
    requires
        listing_word(word),
        all_bare(seq![word] + args),
    ensures
        call_of(call(seq![word] + args)) matches Some((name, rest)) && super::commands::lists(name)
            && rest == args,
        !call(seq![word] + args).contains('|'),
{
    reveal_strlit("get-childitem");
    reveal_strlit("gci");
    reveal_strlit("dir");
    reveal_strlit("ls");
    if spelled(word, "get-childitem"@) {
        lemma_call_named(word, "get-childitem"@, args);
    } else if spelled(word, "gci"@) {
        lemma_call_named(word, "gci"@, args);
    } else if spelled(word, "dir"@) {
        lemma_call_named(word, "dir"@, args);
    } else {
        lemma_call_named(word, "ls"@, args);
    }
}

/// A listing may be called by any of its names, in any case.
pub proof fn law_listing_names(
    a: Seq<char>,
    b: Seq<char>,
    args: Seq<Seq<char>>,
    cwd: Option<Seq<char>>,
    recursive: bool,
)
    requires
        listing_word(a) && listing_word(b),
        all_bare(seq![a] + args) && all_bare(seq![b] + args),
    ensures
        find_of(call(seq![a] + args), cwd) == find_of(call(seq![b] + args), cwd),
        listing_of(call(seq![a] + args), cwd, recursive) == listing_of(
            call(seq![b] + args),
            cwd,
            recursive,
        ),
{
    lemma_listing_word(a, args);
    lemma_listing_word(b, args);
}

/// A reading may be called by any of its names, in any case.
pub proof fn law_reading_names(a: Seq<char>, b: Seq<char>, args: Seq<Seq<char>>)
    requires
        reading_word(a) && reading_word(b),
        all_bare(seq![a] + args) && all_bare(seq![b] + args),
    ensures
        inspect_of(call(seq![a] + args)) == inspect_of(call(seq![b] + args)),
        bounded_read_of(call(seq![a] + args)) == bounded_read_of(call(seq![b] + args)),
{
    lemma_reading_word(a, args);
    lemma_reading_word(b, args);
}

pub proof fn lemma_reading_word(word: Seq<char>, args: Seq<Seq<char>>)
    requires
        reading_word(word),
        all_bare(seq![word] + args),
    ensures
        call_of(call(seq![word] + args)) matches Some((name, rest)) && super::commands::reads(name)
            && rest == args,
        !call(seq![word] + args).contains('|'),
{
    reveal_strlit("get-content");
    reveal_strlit("gc");
    reveal_strlit("cat");
    reveal_strlit("type");
    if spelled(word, "get-content"@) {
        lemma_call_named(word, "get-content"@, args);
    } else if spelled(word, "gc"@) {
        lemma_call_named(word, "gc"@, args);
    } else if spelled(word, "cat"@) {
        lemma_call_named(word, "cat"@, args);
    } else {
        lemma_call_named(word, "type"@, args);
    }
}

/// A search may be called by either of its names, in any case.
pub proof fn law_search_names(
    a: Seq<char>,
    b: Seq<char>,
    args: Seq<Seq<char>>,
    cwd: Option<Seq<char>>,
)
    requires
        search_word(a) && search_word(b),
        all_bare(seq![a] + args) && all_bare(seq![b] + args),
    ensures
        search_of(call(seq![a] + args), cwd) == search_of(call(seq![b] + args), cwd),
{
    lemma_search_word(a, args);
    lemma_search_word(b, args);
}

pub proof fn lemma_search_word(word: Seq<char>, args: Seq<Seq<char>>)
    requires
        search_word(word),
        all_bare(seq![word] + args),
    ensures
        call_of(call(seq![word] + args)) matches Some((name, rest)) && super::commands::searches(
            name,
        ) && rest == args,
        super::words::parts_of(call(seq![word] + args), '|') == Some(
            seq![call(seq![word] + args)],
        ),
{
    reveal_strlit("select-string");
    reveal_strlit("sls");
    if spelled(word, "select-string"@) {
        lemma_call_named(word, "select-string"@, args);
    } else {
        lemma_call_named(word, "sls"@, args);
    }
}

/// A step of a pipeline may be called by any of its names, in any case.
#[verifier::rlimit(40)]
pub proof fn law_step_names(a: Seq<char>, b: Seq<char>, args: Seq<Seq<char>>, steps: StepsView)
    requires
        same_step(a, b),
        all_bare(seq![a] + args) && all_bare(seq![b] + args),
    ensures
        with_step(steps, call(seq![a] + args)) == with_step(steps, call(seq![b] + args)),
        measure_part(call(seq![a] + args)) == measure_part(call(seq![b] + args)),
{
    reveal_strlit("where-object");
    reveal_strlit("where");
    reveal_strlit("?");
    reveal_strlit("sort-object");
    reveal_strlit("sort");
    reveal_strlit("select-object");
    reveal_strlit("select");
    reveal_strlit("measure-object");
    reveal_strlit("measure");
    if spelled(a, "where-object"@) && (spelled(b, "where"@) || spelled(b, "?"@)) {
        lemma_call_named(a, "where-object"@, args);
        if spelled(b, "where"@) {
            lemma_call_named(b, "where"@, args);
        } else {
            lemma_call_named(b, "?"@, args);
        }
    } else if spelled(a, "sort-object"@) && spelled(b, "sort"@) {
        lemma_call_named(a, "sort-object"@, args);
        lemma_call_named(b, "sort"@, args);
    } else if spelled(a, "select-object"@) && spelled(b, "select"@) {
        lemma_call_named(a, "select-object"@, args);
        lemma_call_named(b, "select"@, args);
    } else {
        lemma_call_named(a, "measure-object"@, args);
        lemma_call_named(b, "measure"@, args);
    }
}

/// A layout at the end of a pipeline is left out, whatever its arguments are.
pub proof fn law_layouts(parts: Seq<Seq<char>>, word: Seq<char>, args: Seq<Seq<char>>)
    requires
        layout_word(word),
        all_bare(seq![word] + args),
    ensures
        without_layout(parts.push(call(seq![word] + args))) == Some(parts),
{
    reveal_strlit("format-table");
    reveal_strlit("ft");
    reveal_strlit("format-list");
    reveal_strlit("fl");
    if spelled(word, "format-table"@) {
        lemma_call_named(word, "format-table"@, args);
    } else if spelled(word, "ft"@) {
        lemma_call_named(word, "ft"@, args);
    } else if spelled(word, "format-list"@) {
        lemma_call_named(word, "format-list"@, args);
    } else {
        lemma_call_named(word, "fl"@, args);
    }
    assert(parts.push(call(seq![word] + args)).drop_last() =~= parts);
}

// Places.

/// Whether a word is a single place: it stands as it is, without commas.
pub open spec fn place(word: Seq<char>) -> bool {
    bare(word) && !word.contains(',')
}

proof fn lemma_fragment(word: Seq<char>)
    requires
        place(word),
    ensures
        path_fragment(word) == word,
        trimmed(word) == word,
{
    law_tight(word);
    assert(word[0] != ',') by {
        if word[0] == ',' {
            assert(word.contains(word[0]));
        }
    }
    lemma_leading(word, CharClass::Only(','), 0);
    assert(trimmed_start(word, CharClass::Only(',')) =~= word);
}

/// Places with commas between them are so many places, in order.
pub proof fn law_places(a: Seq<char>, b: Seq<char>)
    requires
        place(a) && place(b),
    ensures
        argument_list(a) == seq![a],
        argument_list(a + seq![','] + b) == seq![a, b],
{
    let e = Seq::<char>::empty();
    law_split(a, ',', b);
    law_split(b, ',', e);
    lemma_fragment(a);
    lemma_fragment(b);
    reveal_with_fuel(fragments, 3);
    let one = seq![a];
    assert(one.drop_last() =~= Seq::<Seq<char>>::empty());
    assert(fragments(one) =~= seq![a]);
    let two = seq![a] + seq![b];
    assert(split_on(a + seq![','] + b, ',') =~= two);
    assert(two.drop_last() =~= one);
    assert(fragments(two) =~= seq![a, b]);
}

// Options.

proof fn lemma_gci_words()
    ensures
        lower_ascii("-recurse"@) && lower_ascii("-r"@) && lower_ascii("-file"@) && lower_ascii(
            "/a-d"@,
        ) && lower_ascii("-force"@) && lower_ascii("-name"@) && lower_ascii("-directory"@)
            && lower_ascii("/ad"@) && lower_ascii("-path"@) && lower_ascii("-literalpath"@)
            && lower_ascii("-filter"@) && lower_ascii("-include"@) && lower_ascii("-erroraction"@)
            && lower_ascii("-ea"@),
        "-recurse"@.len() == 8 && "-recurse"@[0] == '-' && "-recurse"@[1] == 'r',
        "-r"@.len() == 2 && "-r"@[0] == '-',
        "-file"@.len() == 5 && "-file"@[0] == '-' && "-file"@[1] == 'f',
        "/a-d"@.len() == 4 && "/a-d"@[0] == '/',
        "-force"@.len() == 6 && "-force"@[0] == '-',
        "-name"@.len() == 5 && "-name"@[0] == '-' && "-name"@[1] == 'n',
        "-directory"@.len() == 10 && "-directory"@[0] == '-',
        "/ad"@.len() == 3 && "/ad"@[0] == '/',
        "-path"@.len() == 5 && "-path"@[0] == '-' && "-path"@[1] == 'p',
        "-literalpath"@.len() == 12 && "-literalpath"@[0] == '-' && "-literalpath"@[1] == 'l',
        "-filter"@.len() == 7 && "-filter"@[0] == '-',
        "-include"@.len() == 8 && "-include"@[0] == '-' && "-include"@[1] == 'i',
        "-erroraction"@.len() == 12 && "-erroraction"@[0] == '-' && "-erroraction"@[1] == 'e',
        "-ea"@.len() == 3 && "-ea"@[0] == '-',
{
    reveal_strlit("-recurse");
    reveal_strlit("-r");
    reveal_strlit("-file");
    reveal_strlit("/a-d");
    reveal_strlit("-force");
    reveal_strlit("-name");
    reveal_strlit("-directory");
    reveal_strlit("/ad");
    reveal_strlit("-path");
    reveal_strlit("-literalpath");
    reveal_strlit("-filter");
    reveal_strlit("-include");
    reveal_strlit("-erroraction");
    reveal_strlit("-ea");
}

/// Whether a word names the place of a listing, in any case.
pub open spec fn path_word(word: Seq<char>) -> bool {
    spelled(word, "-path"@) || spelled(word, "-literalpath"@)
}

/// Whether a word names the pattern of a listing, in any case.
pub open spec fn pattern_word(word: Seq<char>) -> bool {
    spelled(word, "-filter"@) || spelled(word, "-include"@)
}

/// What a listing can be told with one word more.
pub ghost enum Told {
    Recurse,
    Files,
    Directories,
    Names,
    Nothing,
}

/// What a word tells a listing, in any case.
pub open spec fn tells(word: Seq<char>, told: Told) -> bool {
    match told {
        Told::Recurse => spelled(word, "-recurse"@) || spelled(word, "-r"@),
        Told::Files => spelled(word, "-file"@) || spelled(word, "/a-d"@),
        Told::Directories => spelled(word, "-directory"@) || spelled(word, "/ad"@),
        Told::Names => spelled(word, "-name"@),
        Told::Nothing => spelled(word, "-force"@),
    }
}

#[verifier::rlimit(40)]
proof fn lemma_lowered_words(
    path_w: Seq<char>,
    pattern_w: Seq<char>,
    word: Seq<char>,
    told: Told,
)
    requires
        path_word(path_w) && pattern_word(pattern_w) && tells(word, told),
    ensures
        lowered(path_w) == "-path"@ || lowered(path_w) == "-literalpath"@,
        spelled(pattern_w, "-filter"@) ==> lowered(pattern_w) == "-filter"@,
        spelled(pattern_w, "-include"@) ==> lowered(pattern_w) == "-include"@,
        pattern_w.len() > 0 && pattern_w[0] == '-',
        match told {
            Told::Recurse => lowered(word) == "-recurse"@ || lowered(word) == "-r"@,
            Told::Files => lowered(word) == "-file"@ || lowered(word) == "/a-d"@,
            Told::Directories => lowered(word) == "-directory"@ || lowered(word) == "/ad"@,
            Told::Names => lowered(word) == "-name"@,
            Told::Nothing => lowered(word) == "-force"@,
        },
{
    lemma_gci_words();
    if spelled(path_w, "-path"@) {
        lemma_spelled(path_w, "-path"@);
    } else {
        lemma_spelled(path_w, "-literalpath"@);
    }
    if spelled(pattern_w, "-filter"@) {
        lemma_spelled(pattern_w, "-filter"@);
        assert(super::reading_laws::same_letter(pattern_w[0], "-filter"@[0]));
    } else {
        lemma_spelled(pattern_w, "-include"@);
        assert(super::reading_laws::same_letter(pattern_w[0], "-include"@[0]));
    }
    match told {
        Told::Recurse => {
            if spelled(word, "-recurse"@) {
                lemma_spelled(word, "-recurse"@);
            } else {
                lemma_spelled(word, "-r"@);
            }
        },
        Told::Files => {
            if spelled(word, "-file"@) {
                lemma_spelled(word, "-file"@);
            } else {
                lemma_spelled(word, "/a-d"@);
            }
        },
        Told::Directories => {
            if spelled(word, "-directory"@) {
                lemma_spelled(word, "-directory"@);
            } else {
                lemma_spelled(word, "/ad"@);
            }
        },
        Told::Names => {
            lemma_spelled(word, "-name"@);
        },
        Told::Nothing => {
            lemma_spelled(word, "-force"@);
        },
    }
}

/// The options of a listing that names its place and its pattern and is told
/// one thing more: just this is set.
#[verifier::spinoff_prover]
#[verifier::rlimit(60)]
pub proof fn law_listing_options(
    path_w: Seq<char>,
    root: Seq<char>,
    pattern_w: Seq<char>,
    pattern: Seq<char>,
    word: Seq<char>,
    told: Told,
    cwd: Option<Seq<char>>,
)
    requires
        path_word(path_w) && pattern_word(pattern_w) && tells(word, told),
        place(root) && bare(pattern_w),
    ensures
        gci_listing(seq![path_w, root, pattern_w, pattern, word], cwd) == Some(
            GciView {
                roots: seq![root],
                filter: if spelled(pattern_w, "-filter"@) {
                    Some(pattern)
                } else {
                    None
                },
                included: if spelled(pattern_w, "-filter"@) {
                    None
                } else {
                    Some(pattern)
                },
                recurse: told is Recurse,
                names_only: told is Names,
                files_only: told is Files,
                directories_only: told is Directories,
            },
        ),
{
    lemma_gci_words();
    lemma_lowered_words(path_w, pattern_w, word, told);
    let tokens = seq![path_w, root, pattern_w, pattern, word];
    law_places(root, root);
    law_tight(pattern_w);
    let none = Seq::<Seq<char>>::empty();
    let roots = none + argument_list(root);
    assert(roots =~= seq![root]);
    assert(list_tail(tokens, 2, roots, false) == (roots, 2int));
    let o0 = no_gci();
    let o1 = GciView { roots, ..o0 };
    assert(o0.roots + argument_list(root) =~= roots);
    let o2 = if spelled(pattern_w, "-filter"@) {
        GciView { filter: Some(pattern), ..o1 }
    } else {
        GciView { included: Some(pattern), ..o1 }
    };
    let o3 = match told {
        Told::Recurse => GciView { recurse: true, ..o2 },
        Told::Files => GciView { files_only: true, ..o2 },
        Told::Directories => GciView { directories_only: true, ..o2 },
        Told::Names => GciView { names_only: true, ..o2 },
        Told::Nothing => o2,
    };
    assert(gci_scan(tokens, 5, o3, none) == Some((o3, none)));
    assert(gci_scan(tokens, 4, o2, none) == Some((o3, none)));
    assert(gci_scan(tokens, 2, o1, none) == Some((o3, none)));
    assert(gci_scan(tokens, 0, o0, none) == Some((o3, none)));
}

/// A listing of one directory shows what its words tell; a recursive one is a
/// search for at most eighty files.
pub proof fn law_listing(
    name: Seq<char>,
    path_w: Seq<char>,
    root: Seq<char>,
    pattern_w: Seq<char>,
    pattern: Seq<char>,
    word: Seq<char>,
    told: Told,
    cwd: Option<Seq<char>>,
)
    requires
        listing_word(name),
        path_word(path_w) && pattern_word(pattern_w) && tells(word, told),
        bare(name) && bare(path_w) && place(root) && bare(pattern_w) && bare(pattern) && bare(word),
    ensures
        ({
            let command = call(seq![name, path_w, root, pattern_w, pattern, word]);
            &&& !(told is Recurse) ==> listing_of(command, cwd, false) == Some(
                OperationView::ListDirectory(
                    DirectoryListView {
                        root,
                        filter: Some(pattern),
                        names_only: told is Names,
                        files_only: told is Files,
                        directories_only: told is Directories,
                    },
                ),
            )
            &&& !(told is Recurse) ==> find_of(command, cwd) is None
            &&& told is Recurse ==> find_of(command, cwd) == Some(
                OperationView::Find(
                    FindQueryView { root: Some(root), pattern, files_only: true, limit: 80 },
                ),
            )
            &&& told is Recurse ==> listing_of(command, cwd, true) == Some(
                OperationView::FindProjection(
                    FindProjectionView {
                        query: FindQueryView {
                            root: Some(root),
                            pattern,
                            files_only: true,
                            limit: 200,
                        },
                        projection: ProjectionView::FullNameOnly,
                    },
                ),
            )
        }),
{
    let args = seq![path_w, root, pattern_w, pattern, word];
    let words = seq![name, path_w, root, pattern_w, pattern, word];
    assert(seq![name] + args =~= words);
    assert(all_bare(words));
    lemma_listing_word(name, args);
    law_listing_options(path_w, root, pattern_w, pattern, word, told, cwd);
    let options = gci_listing(args, cwd)->0;
    assert(gci_search(args, cwd) is Some <==> !(told is Names || told is Directories));
    assert(super::arguments::gci_pattern(options) == Some(pattern));
    assert(super::arguments::token_at(options.roots, 0) == Some(root));
}

/// A place that is not named comes first, and the current directory stands
/// for one that is missing.
#[verifier::spinoff_prover]
pub proof fn law_listing_place(root: Seq<char>, pattern_w: Seq<char>, pattern: Seq<char>, dir: Seq<char>)
    requires
        pattern_word(pattern_w) && bare(pattern_w),
        place(root),
        lowered(root).len() > 0 && lowered(root)[0] != '-' && lowered(root)[0] != '/',
    ensures
        gci_listing(seq![root, pattern_w, pattern], Some(dir)) matches Some(options)
            && options.roots == seq![root],
        gci_listing(seq![pattern_w, pattern], Some(dir)) matches Some(options) && options.roots
            == seq![dir],
        gci_listing(seq![pattern_w, pattern], None) matches Some(options) && options.roots.len()
            == 0,
{
    reveal_strlit("-path");
    lemma_gci_words();
    lemma_lowered_words("-path"@, pattern_w, "-force"@, Told::Nothing);
    lemma_plain(root);
    law_places(root, root);
    let none = Seq::<Seq<char>>::empty();
    assert(none + argument_list(root) =~= seq![root]);
    let o0 = no_gci();
    let o1 = if spelled(pattern_w, "-filter"@) {
        GciView { filter: Some(pattern), ..o0 }
    } else {
        GciView { included: Some(pattern), ..o0 }
    };
    let tokens = seq![root, pattern_w, pattern];
    assert(gci_scan(tokens, 3, o1, seq![root]) == Some((o1, seq![root])));
    assert(gci_scan(tokens, 1, o0, seq![root]) == Some((o1, seq![root])));
    assert(gci_scan(tokens, 0, o0, none) == Some((o1, seq![root])));
    let tokens = seq![pattern_w, pattern];
    assert(gci_scan(tokens, 2, o1, none) == Some((o1, none)));
    assert(gci_scan(tokens, 0, o0, none) == Some((o1, none)));
}

proof fn lemma_plain(word: Seq<char>)
    requires
        lowered(word).len() > 0 && lowered(word)[0] != '-',
    ensures
        !has_prefix(lowered(word), "-path:"@),
        !has_prefix(lowered(word), "-literalpath:"@),
        !has_prefix(lowered(word), "-filter:"@),
        !has_prefix(lowered(word), "-include:"@),
{
    reveal_strlit("-path:");
    reveal_strlit("-literalpath:");
    reveal_strlit("-filter:");
    reveal_strlit("-include:");
    let t = lowered(word);
    assert(t.subrange(0, 1)[0] == t[0]);
    if has_prefix(t, "-path:"@) {
        assert(t.subrange(0, 6)[0] == t[0]);
    }
    if has_prefix(t, "-literalpath:"@) {
        assert(t.subrange(0, 13)[0] == t[0]);
    }
    if has_prefix(t, "-filter:"@) {
        assert(t.subrange(0, 8)[0] == t[0]);
    }
    if has_prefix(t, "-include:"@) {
        assert(t.subrange(0, 9)[0] == t[0]);
    }
}

// Options that are not known.

/// Whether a word is an option without a value in it.
pub open spec fn is_option(t: Seq<char>) -> bool {
    t.len() > 0 && t[0] == '-' && !t.contains(':')
}

proof fn lemma_option(t: Seq<char>)
    requires
        is_option(t),
    ensures
        !has_prefix(t, "-path:"@),
        !has_prefix(t, "-literalpath:"@),
        !has_prefix(t, "-filter:"@),
        !has_prefix(t, "-include:"@),
{
    reveal_strlit("-path:");
    reveal_strlit("-literalpath:");
    reveal_strlit("-filter:");
    reveal_strlit("-include:");
    if has_prefix(t, "-path:"@) {
        assert(t.subrange(0, 6)[5] == t[5]);
        assert(t.contains(':'));
    }
    if has_prefix(t, "-literalpath:"@) {
        assert(t.subrange(0, 13)[12] == t[12]);
        assert(t.contains(':'));
    }
    if has_prefix(t, "-filter:"@) {
        assert(t.subrange(0, 8)[7] == t[7]);
        assert(t.contains(':'));
    }
    if has_prefix(t, "-include:"@) {
        assert(t.subrange(0, 9)[8] == t[8]);
        assert(t.contains(':'));
    }
}

/// A command with an option that is not known is not read.
pub proof fn law_unknown_options(
    word: Seq<char>,
    t: Seq<char>,
    path: Seq<char>,
    cwd: Option<Seq<char>>,
)
    requires
        lowered(word) == t,
        is_option(t),
        lowered(path).len() > 0 && lowered(path)[0] != '-',
    ensures
        t != "-recurse"@ && t != "-r"@ && t != "-file"@ && t != "-force"@ && t != "-name"@ && t != "-directory"@ && t != "-path"@ && t != "-literalpath"@ && t != "-filter"@ && t != "-include"@ && t != "-erroraction"@ && t != "-ea"@
            ==> gci_listing(seq![word], cwd) is None,
        t != "-pattern"@ && t != "-path"@ && t != "-literalpath"@ && t != "-casesensitive"@ && t != "-simplematch"@ && t != "-context"@
            ==> super::content::select_options(seq![word], true) is None,
        t != "-raw"@ && t != "-path"@ && t != "-literalpath"@ ==> super::content::inspect_options(
            seq![path, word],
        ) is None,
        t != "-path"@ && t != "-literalpath"@ && t != "-totalcount"@ && t != "-tail"@ && t != "-erroraction"@ && t != "-ea"@
            ==> super::content::bounded_options(seq![path, word]) is None,
        t != "-skip"@ && t != "-first"@ ==> super::content::window_scan(seq![word], 0, None, None)
            is None,
        t != "-property"@ && t != "-descending"@ && t != "-ascending"@
            ==> super::filters::sort_scan(seq![word], 0, None, false) is None,
        t != "-property"@ && t != "-sum"@ && t != "-minimum"@ && t != "-maximum"@ && t
            != "-average"@ ==> super::filters::measure_of(seq![word]) is None,
        t != "-pattern"@ && t != "-casesensitive"@ && t != "-simplematch"@
            ==> super::content::pattern_scan(seq![word], 0, None) is None,
        !super::arguments::path_option(t) ==> super::content::content_path_scan(
            seq![word],
            0,
            Seq::empty(),
        ) is None,
{
    lemma_option(t);
    super::reading_laws::lemma_not_path_option(path);
    super::reading_laws::lemma_options();
    reveal_strlit("/a-d");
    reveal_strlit("/ad");
    let one = seq![word];
    let two = seq![path, word];
    assert(one[0] == word && two[0] == path && two[1] == word);
    let o0 = super::content::no_content();
    let o1 = super::content::ContentView { positional: o0.positional.push(path), ..o0 };
    assert(t != "-raw"@ && t != "-path"@ && t != "-literalpath"@ ==> super::content::content_scan(two, 1, o1, false) is None);
    assert(t != "-path"@ && t != "-literalpath"@ && t != "-totalcount"@ && t != "-tail"@ && t != "-erroraction"@ && t != "-ea"@
        ==> super::content::content_scan(two, 1, o1, true) is None);
    assert(super::content::content_scan(two, 0, o0, false) == super::content::content_scan(
        two,
        1,
        o1,
        false,
    ));
    assert(super::content::content_scan(two, 0, o0, true) == super::content::content_scan(
        two,
        1,
        o1,
        true,
    ));
}

} // verus!
