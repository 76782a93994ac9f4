//! What holds of all edits: which language a file is in, what a patch names and
//! when an answer speaks of a failure.
use super::post_edit_check::{entries_of, language_of_name, line_entry, no_failure, PatchEntryView};
use crate::backends::inspect_file::outline_grammar;
use crate::case::ascii_lowercase;
use crate::paths::lower_extension;
use crate::record_laws::lemma_after_dot;
use crate::shell_parse::reading_laws::{lemma_spelled, lower_ascii, same_letter, spelled};
use crate::syntax::Grammar;
use crate::text::{has_prefix, has_text, occurs_at};
use crate::text_laws::{blank, law_ends, law_trim, tight};
use vstd::prelude::*;
use vstd::string::*;

verus! {

// Languages.

proof fn lemma_extension_words()
    ensures
        lower_ascii("rs"@) && !"rs"@.contains('.') && "rs"@.len() == 2 && "rs"@[0] == 'r' && "rs"@[1] == 's',
        lower_ascii("py"@) && !"py"@.contains('.') && "py"@.len() == 2 && "py"@[0] == 'p' && "py"@[1] == 'y',
        lower_ascii("js"@) && !"js"@.contains('.') && "js"@.len() == 2 && "js"@[0] == 'j' && "js"@[1] == 's',
        lower_ascii("ts"@) && !"ts"@.contains('.') && "ts"@.len() == 2 && "ts"@[0] == 't' && "ts"@[1] == 's',
        lower_ascii("jsx"@) && !"jsx"@.contains('.') && "jsx"@.len() == 3 && "jsx"@[0] == 'j' && "jsx"@[1] == 's',
        lower_ascii("tsx"@) && !"tsx"@.contains('.') && "tsx"@.len() == 3 && "tsx"@[0] == 't' && "tsx"@[1] == 's',
        lower_ascii("c"@) && !"c"@.contains('.') && "c"@.len() == 1 && "c"@[0] == 'c',
        lower_ascii("cc"@) && !"cc"@.contains('.') && "cc"@.len() == 2 && "cc"@[0] == 'c' && "cc"@[1] == 'c',
        lower_ascii("cpp"@) && !"cpp"@.contains('.') && "cpp"@.len() == 3 && "cpp"@[0] == 'c' && "cpp"@[1] == 'p',
        lower_ascii("cxx"@) && !"cxx"@.contains('.') && "cxx"@.len() == 3 && "cxx"@[0] == 'c' && "cxx"@[1] == 'x',
        lower_ascii("h"@) && !"h"@.contains('.') && "h"@.len() == 1 && "h"@[0] == 'h',
        lower_ascii("hh"@) && !"hh"@.contains('.') && "hh"@.len() == 2 && "hh"@[0] == 'h' && "hh"@[1] == 'h',
        lower_ascii("hpp"@) && !"hpp"@.contains('.') && "hpp"@.len() == 3 && "hpp"@[0] == 'h' && "hpp"@[1] == 'p',
        lower_ascii("hxx"@) && !"hxx"@.contains('.') && "hxx"@.len() == 3 && "hxx"@[0] == 'h' && "hxx"@[1] == 'x',
        lower_ascii("go"@) && !"go"@.contains('.') && "go"@.len() == 2 && "go"@[0] == 'g' && "go"@[1] == 'o',
        lower_ascii("java"@) && !"java"@.contains('.') && "java"@.len() == 4 && "java"@[0] == 'j' && "java"@[1] == 'a',
        lower_ascii("cs"@) && !"cs"@.contains('.') && "cs"@.len() == 2 && "cs"@[0] == 'c' && "cs"@[1] == 's',
        lower_ascii("gd"@) && !"gd"@.contains('.') && "gd"@.len() == 2 && "gd"@[0] == 'g' && "gd"@[1] == 'd',
        lower_ascii("json"@) && !"json"@.contains('.') && "json"@.len() == 4 && "json"@[0] == 'j' && "json"@[1] == 's',
        lower_ascii("toml"@) && !"toml"@.contains('.') && "toml"@.len() == 4 && "toml"@[0] == 't' && "toml"@[1] == 'o',
        lower_ascii("yaml"@) && !"yaml"@.contains('.') && "yaml"@.len() == 4 && "yaml"@[0] == 'y' && "yaml"@[1] == 'a',
        lower_ascii("yml"@) && !"yml"@.contains('.') && "yml"@.len() == 3 && "yml"@[0] == 'y' && "yml"@[1] == 'm',
        lower_ascii("css"@) && !"css"@.contains('.') && "css"@.len() == 3 && "css"@[0] == 'c' && "css"@[1] == 's',
        lower_ascii("scss"@) && !"scss"@.contains('.') && "scss"@.len() == 4 && "scss"@[0] == 's' && "scss"@[1] == 'c',
        lower_ascii("html"@) && !"html"@.contains('.') && "html"@.len() == 4 && "html"@[0] == 'h' && "html"@[1] == 't',
        lower_ascii("xml"@) && !"xml"@.contains('.') && "xml"@.len() == 3 && "xml"@[0] == 'x' && "xml"@[1] == 'm',
        lower_ascii("md"@) && !"md"@.contains('.') && "md"@.len() == 2 && "md"@[0] == 'm' && "md"@[1] == 'd',
        lower_ascii("mdx"@) && !"mdx"@.contains('.') && "mdx"@.len() == 3 && "mdx"@[0] == 'm' && "mdx"@[1] == 'd',
{
    reveal_strlit("rs");
    assert("rs"@ =~= seq!['r', 's']);
    reveal_strlit("py");
    assert("py"@ =~= seq!['p', 'y']);
    reveal_strlit("js");
    assert("js"@ =~= seq!['j', 's']);
    reveal_strlit("ts");
    assert("ts"@ =~= seq!['t', 's']);
    reveal_strlit("jsx");
    assert("jsx"@ =~= seq!['j', 's', 'x']);
    reveal_strlit("tsx");
    assert("tsx"@ =~= seq!['t', 's', 'x']);
    reveal_strlit("c");
    assert("c"@ =~= seq!['c']);
    reveal_strlit("cc");
    assert("cc"@ =~= seq!['c', 'c']);
    reveal_strlit("cpp");
    assert("cpp"@ =~= seq!['c', 'p', 'p']);
    reveal_strlit("cxx");
    assert("cxx"@ =~= seq!['c', 'x', 'x']);
    reveal_strlit("h");
    assert("h"@ =~= seq!['h']);
    reveal_strlit("hh");
    assert("hh"@ =~= seq!['h', 'h']);
    reveal_strlit("hpp");
    assert("hpp"@ =~= seq!['h', 'p', 'p']);
    reveal_strlit("hxx");
    assert("hxx"@ =~= seq!['h', 'x', 'x']);
    reveal_strlit("go");
    assert("go"@ =~= seq!['g', 'o']);
    reveal_strlit("java");
    assert("java"@ =~= seq!['j', 'a', 'v', 'a']);
    reveal_strlit("cs");
    assert("cs"@ =~= seq!['c', 's']);
    reveal_strlit("gd");
    assert("gd"@ =~= seq!['g', 'd']);
    reveal_strlit("json");
    assert("json"@ =~= seq!['j', 's', 'o', 'n']);
    reveal_strlit("toml");
    assert("toml"@ =~= seq!['t', 'o', 'm', 'l']);
    reveal_strlit("yaml");
    assert("yaml"@ =~= seq!['y', 'a', 'm', 'l']);
    reveal_strlit("yml");
    assert("yml"@ =~= seq!['y', 'm', 'l']);
    reveal_strlit("css");
    assert("css"@ =~= seq!['c', 's', 's']);
    reveal_strlit("scss");
    assert("scss"@ =~= seq!['s', 'c', 's', 's']);
    reveal_strlit("html");
    assert("html"@ =~= seq!['h', 't', 'm', 'l']);
    reveal_strlit("xml");
    assert("xml"@ =~= seq!['x', 'm', 'l']);
    reveal_strlit("md");
    assert("md"@ =~= seq!['m', 'd']);
    reveal_strlit("mdx");
    assert("mdx"@ =~= seq!['m', 'd', 'x']);
}

proof fn lemma_extension(stem: Seq<char>, ext: Seq<char>, lower: Seq<char>)
    requires
        stem.len() > 0 && stem[0] != '.',
        spelled(ext, lower),
        lower_ascii(lower) && !lower.contains('.'),
    ensures
        lower_extension(stem + seq!['.'] + ext) == Some(lower),
        !super::post_edit_check::shell_like_name(ascii_lowercase(stem + seq!['.'] + ext)),
{
    assert(!ext.contains('.')) by {
        if ext.contains('.') {
            let i = ext.index_of('.');
            assert(same_letter(ext[i], lower[i]));
            assert(lower[i] == '.');
            assert(lower.contains('.'));
        }
    }
    lemma_after_dot(stem, ext);
    lemma_spelled(ext, lower);
    let name = stem + seq!['.'] + ext;
    let t = ascii_lowercase(name);
    reveal_strlit(".env");
    reveal_strlit("dockerfile");
    reveal_strlit("makefile");
    reveal_strlit(".gitignore");
    reveal_strlit(".gitattributes");
    reveal_strlit(".editorconfig");
    assert(name[0] == stem[0]);
    assert(t[0] != '.');
    if has_prefix(t, ".env"@) {
        assert(t.subrange(0, 4)[0] == t[0]);
    }
    let n = stem.len() as int;
    assert(name[n] == '.' && t[n] == '.');
}

/// The language of a file is known from its extension, in any case.
#[verifier::spinoff_prover]
#[verifier::rlimit(60)]
pub proof fn law_languages(stem: Seq<char>, ext: Seq<char>)
    requires
        stem.len() > 0 && stem[0] != '.',
    ensures
        spelled(ext, "rs"@) ==> language_of_name(stem + seq!['.'] + ext) is Rust,
        spelled(ext, "py"@) ==> language_of_name(stem + seq!['.'] + ext) is Python,
        spelled(ext, "js"@) || spelled(ext, "ts"@) ==> language_of_name(stem + seq!['.'] + ext) is JavaScriptLike,
        spelled(ext, "jsx"@) || spelled(ext, "tsx"@) ==> language_of_name(stem + seq!['.'] + ext) is JsxLike,
        spelled(ext, "c"@) || spelled(ext, "cc"@) || spelled(ext, "cpp"@) || spelled(ext, "cxx"@) || spelled(ext, "h"@) || spelled(ext, "hh"@) || spelled(ext, "hpp"@) || spelled(ext, "hxx"@) ==> language_of_name(stem + seq!['.'] + ext) is CLike,
        spelled(ext, "go"@) ==> language_of_name(stem + seq!['.'] + ext) is Go,
        spelled(ext, "java"@) ==> language_of_name(stem + seq!['.'] + ext) is JavaLike,
        spelled(ext, "cs"@) ==> language_of_name(stem + seq!['.'] + ext) is CSharp,
        spelled(ext, "gd"@) ==> language_of_name(stem + seq!['.'] + ext) is GDScript,
        spelled(ext, "json"@) ==> language_of_name(stem + seq!['.'] + ext) is Json,
        spelled(ext, "toml"@) ==> language_of_name(stem + seq!['.'] + ext) is Toml,
        spelled(ext, "yaml"@) || spelled(ext, "yml"@) ==> language_of_name(stem + seq!['.'] + ext) is Yaml,
        spelled(ext, "css"@) || spelled(ext, "scss"@) ==> language_of_name(stem + seq!['.'] + ext) is CssLike,
        spelled(ext, "html"@) || spelled(ext, "xml"@) ==> language_of_name(stem + seq!['.'] + ext) is HtmlXml,
        spelled(ext, "md"@) || spelled(ext, "mdx"@) ==> language_of_name(stem + seq!['.'] + ext) is Markdown,
{
    lemma_extension_words();
    if spelled(ext, "rs"@) {
        lemma_spelled(ext, "rs"@);
        lemma_extension(stem, ext, "rs"@);
    } else if spelled(ext, "py"@) {
        lemma_spelled(ext, "py"@);
        lemma_extension(stem, ext, "py"@);
    } else if spelled(ext, "js"@) {
        lemma_spelled(ext, "js"@);
        lemma_extension(stem, ext, "js"@);
    } else if spelled(ext, "ts"@) {
        lemma_spelled(ext, "ts"@);
        lemma_extension(stem, ext, "ts"@);
    } else if spelled(ext, "jsx"@) {
        lemma_spelled(ext, "jsx"@);
        lemma_extension(stem, ext, "jsx"@);
    } else if spelled(ext, "tsx"@) {
        lemma_spelled(ext, "tsx"@);
        lemma_extension(stem, ext, "tsx"@);
    } else if spelled(ext, "c"@) {
        lemma_spelled(ext, "c"@);
        lemma_extension(stem, ext, "c"@);
    } else if spelled(ext, "cc"@) {
        lemma_spelled(ext, "cc"@);
        lemma_extension(stem, ext, "cc"@);
    } else if spelled(ext, "cpp"@) {
        lemma_spelled(ext, "cpp"@);
        lemma_extension(stem, ext, "cpp"@);
    } else if spelled(ext, "cxx"@) {
        lemma_spelled(ext, "cxx"@);
        lemma_extension(stem, ext, "cxx"@);
    } else if spelled(ext, "h"@) {
        lemma_spelled(ext, "h"@);
        lemma_extension(stem, ext, "h"@);
    } else if spelled(ext, "hh"@) {
        lemma_spelled(ext, "hh"@);
        lemma_extension(stem, ext, "hh"@);
    } else if spelled(ext, "hpp"@) {
        lemma_spelled(ext, "hpp"@);
        lemma_extension(stem, ext, "hpp"@);
    } else if spelled(ext, "hxx"@) {
        lemma_spelled(ext, "hxx"@);
        lemma_extension(stem, ext, "hxx"@);
    } else if spelled(ext, "go"@) {
        lemma_spelled(ext, "go"@);
        lemma_extension(stem, ext, "go"@);
    } else if spelled(ext, "java"@) {
        lemma_spelled(ext, "java"@);
        lemma_extension(stem, ext, "java"@);
    } else if spelled(ext, "cs"@) {
        lemma_spelled(ext, "cs"@);
        lemma_extension(stem, ext, "cs"@);
    } else if spelled(ext, "gd"@) {
        lemma_spelled(ext, "gd"@);
        lemma_extension(stem, ext, "gd"@);
    } else if spelled(ext, "json"@) {
        lemma_spelled(ext, "json"@);
        lemma_extension(stem, ext, "json"@);
    } else if spelled(ext, "toml"@) {
        lemma_spelled(ext, "toml"@);
        lemma_extension(stem, ext, "toml"@);
    } else if spelled(ext, "yaml"@) {
        lemma_spelled(ext, "yaml"@);
        lemma_extension(stem, ext, "yaml"@);
    } else if spelled(ext, "yml"@) {
        lemma_spelled(ext, "yml"@);
        lemma_extension(stem, ext, "yml"@);
    } else if spelled(ext, "css"@) {
        lemma_spelled(ext, "css"@);
        lemma_extension(stem, ext, "css"@);
    } else if spelled(ext, "scss"@) {
        lemma_spelled(ext, "scss"@);
        lemma_extension(stem, ext, "scss"@);
    } else if spelled(ext, "html"@) {
        lemma_spelled(ext, "html"@);
        lemma_extension(stem, ext, "html"@);
    } else if spelled(ext, "xml"@) {
        lemma_spelled(ext, "xml"@);
        lemma_extension(stem, ext, "xml"@);
    } else if spelled(ext, "md"@) {
        lemma_spelled(ext, "md"@);
        lemma_extension(stem, ext, "md"@);
    } else if spelled(ext, "mdx"@) {
        lemma_spelled(ext, "mdx"@);
        lemma_extension(stem, ext, "mdx"@);
    }
}

/// Files in five languages are outlined; a header is taken for one of C.
#[verifier::spinoff_prover]
#[verifier::rlimit(60)]
pub proof fn law_outlined(stem: Seq<char>, ext: Seq<char>)
    requires
        stem.len() > 0 && stem[0] != '.',
    ensures
        spelled(ext, "rs"@) ==> outline_grammar(stem + seq!['.'] + ext) == Some(Grammar::Rust),
        spelled(ext, "py"@) ==> outline_grammar(stem + seq!['.'] + ext) == Some(Grammar::Python),
        spelled(ext, "c"@) || spelled(ext, "h"@) ==> outline_grammar(stem + seq!['.'] + ext) == Some(Grammar::C),
        spelled(ext, "cc"@) || spelled(ext, "cpp"@) || spelled(ext, "hpp"@) ==> outline_grammar(stem + seq!['.'] + ext) == Some(Grammar::Cpp),
        spelled(ext, "gd"@) ==> outline_grammar(stem + seq!['.'] + ext) == Some(Grammar::GDScript),
{
    lemma_extension_words();
    if spelled(ext, "rs"@) {
        lemma_spelled(ext, "rs"@);
        lemma_extension(stem, ext, "rs"@);
    } else if spelled(ext, "py"@) {
        lemma_spelled(ext, "py"@);
        lemma_extension(stem, ext, "py"@);
    } else if spelled(ext, "c"@) {
        lemma_spelled(ext, "c"@);
        lemma_extension(stem, ext, "c"@);
    } else if spelled(ext, "h"@) {
        lemma_spelled(ext, "h"@);
        lemma_extension(stem, ext, "h"@);
    } else if spelled(ext, "cc"@) {
        lemma_spelled(ext, "cc"@);
        lemma_extension(stem, ext, "cc"@);
    } else if spelled(ext, "cpp"@) {
        lemma_spelled(ext, "cpp"@);
        lemma_extension(stem, ext, "cpp"@);
    } else if spelled(ext, "hpp"@) {
        lemma_spelled(ext, "hpp"@);
        lemma_extension(stem, ext, "hpp"@);
    } else if spelled(ext, "gd"@) {
        lemma_spelled(ext, "gd"@);
        lemma_extension(stem, ext, "gd"@);
    }
}

/// Files in five languages are parsed; a header is taken for one of C++.
#[verifier::spinoff_prover]
#[verifier::rlimit(60)]
pub proof fn law_parsed(stem: Seq<char>, ext: Seq<char>)
    requires
        stem.len() > 0 && stem[0] != '.',
    ensures
        spelled(ext, "rs"@) ==> language_of_name(stem + seq!['.'] + ext).grammar(stem + seq!['.'] + ext) == Some(
            Grammar::Rust,
        ),
        spelled(ext, "py"@) ==> language_of_name(stem + seq!['.'] + ext).grammar(stem + seq!['.'] + ext) == Some(
            Grammar::Python,
        ),
        spelled(ext, "c"@) ==> language_of_name(stem + seq!['.'] + ext).grammar(stem + seq!['.'] + ext) == Some(
            Grammar::C,
        ),
        spelled(ext, "cc"@) || spelled(ext, "cpp"@) || spelled(ext, "cxx"@) || spelled(ext, "h"@) || spelled(ext, "hh"@) || spelled(ext, "hpp"@) || spelled(ext, "hxx"@) ==> language_of_name(stem + seq!['.'] + ext).grammar(stem + seq!['.'] + ext) == Some(
            Grammar::Cpp,
        ),
        spelled(ext, "gd"@) ==> language_of_name(stem + seq!['.'] + ext).grammar(stem + seq!['.'] + ext) == Some(
            Grammar::GDScript,
        ),
{
    lemma_extension_words();
    if spelled(ext, "rs"@) {
        lemma_spelled(ext, "rs"@);
        lemma_extension(stem, ext, "rs"@);
    } else if spelled(ext, "py"@) {
        lemma_spelled(ext, "py"@);
        lemma_extension(stem, ext, "py"@);
    } else if spelled(ext, "c"@) {
        lemma_spelled(ext, "c"@);
        lemma_extension(stem, ext, "c"@);
    } else if spelled(ext, "cc"@) {
        lemma_spelled(ext, "cc"@);
        lemma_extension(stem, ext, "cc"@);
    } else if spelled(ext, "cpp"@) {
        lemma_spelled(ext, "cpp"@);
        lemma_extension(stem, ext, "cpp"@);
    } else if spelled(ext, "cxx"@) {
        lemma_spelled(ext, "cxx"@);
        lemma_extension(stem, ext, "cxx"@);
    } else if spelled(ext, "h"@) {
        lemma_spelled(ext, "h"@);
        lemma_extension(stem, ext, "h"@);
    } else if spelled(ext, "hh"@) {
        lemma_spelled(ext, "hh"@);
        lemma_extension(stem, ext, "hh"@);
    } else if spelled(ext, "hpp"@) {
        lemma_spelled(ext, "hpp"@);
        lemma_extension(stem, ext, "hpp"@);
    } else if spelled(ext, "hxx"@) {
        lemma_spelled(ext, "hxx"@);
        lemma_extension(stem, ext, "hxx"@);
    } else if spelled(ext, "gd"@) {
        lemma_spelled(ext, "gd"@);
        lemma_extension(stem, ext, "gd"@);
    }
}

/// A file with another extension is in no known language.
pub proof fn law_unknown_languages(stem: Seq<char>, ext: Seq<char>, lower: Seq<char>)
    requires
        stem.len() > 0 && stem[0] != '.',
        spelled(ext, lower),
        lower_ascii(lower) && !lower.contains('.'),
        lower != "rs"@ && lower != "py"@ && lower != "js"@ && lower != "ts"@ && lower != "jsx"@ && lower != "tsx"@ && lower != "c"@ && lower != "cc"@ && lower != "cpp"@ && lower != "cxx"@ && lower != "h"@ && lower != "hh"@ && lower != "hpp"@ && lower != "hxx"@ && lower != "go"@ && lower != "java"@ && lower != "cs"@ && lower != "gd"@ && lower != "json"@ && lower != "toml"@ && lower != "yaml"@ && lower != "yml"@ && lower != "css"@ && lower != "scss"@ && lower != "html"@ && lower != "xml"@ && lower != "md"@ && lower != "mdx"@,
    ensures
        language_of_name(stem + seq!['.'] + ext) is Unknown,
        outline_grammar(stem + seq!['.'] + ext) is None,
{
    lemma_extension(stem, ext, lower);
}

/// Some files are known by their whole name, in any case, and those that hold
/// settings of an environment by how it starts.
pub proof fn law_known_names(name: Seq<char>, env: Seq<char>, rest: Seq<char>)
    requires
        spelled(name, "dockerfile"@) || spelled(name, "makefile"@) || spelled(name, ".gitignore"@) || spelled(name, ".gitattributes"@) || spelled(name, ".editorconfig"@),
        spelled(env, ".env"@),
    ensures
        language_of_name(name) is ShellLike,
        language_of_name(env + rest) is ShellLike,
{
    reveal_strlit("dockerfile");
    reveal_strlit("makefile");
    reveal_strlit(".gitignore");
    reveal_strlit(".gitattributes");
    reveal_strlit(".editorconfig");
    reveal_strlit(".env");
    if spelled(name, "dockerfile"@) {
        lemma_spelled(name, "dockerfile"@);
    } else if spelled(name, "makefile"@) {
        lemma_spelled(name, "makefile"@);
    } else if spelled(name, ".gitignore"@) {
        lemma_spelled(name, ".gitignore"@);
    } else if spelled(name, ".gitattributes"@) {
        lemma_spelled(name, ".gitattributes"@);
    } else if spelled(name, ".editorconfig"@) {
        lemma_spelled(name, ".editorconfig"@);
    }
    lemma_spelled(env, ".env"@);
    let t = ascii_lowercase(env + rest);
    assert(t.subrange(0, 4) =~= ascii_lowercase(env));
    assert(has_prefix(t, ".env"@));
}

// Patches.

/// A line of a patch names a file that it deletes, adds, changes or moves to;
/// the white space around the name does not belong to it.
pub proof fn law_patch_lines(a: Seq<char>, path: Seq<char>, b: Seq<char>)
    requires
        blank(a) && blank(b),
        path.len() > 0 && tight(path),
        !(a + path + b).contains('\0'),
    ensures
        line_entry("*** Delete File: "@ + (a + path + b)) == Some(
            PatchEntryView { deleted: true, path },
        ),
        line_entry("*** Add File: "@ + (a + path + b)) == Some(
            PatchEntryView { deleted: false, path },
        ),
        line_entry("*** Update File: "@ + (a + path + b)) == Some(
            PatchEntryView { deleted: false, path },
        ),
        line_entry("*** Move to: "@ + (a + path + b)) == Some(
            PatchEntryView { deleted: false, path },
        ),
{
    let name = a + path + b;
    law_trim(a, path, b);
    assert(!path.contains('\0')) by {
        if path.contains('\0') {
            let i = path.index_of('\0');
            assert(name[a.len() as int + i] == '\0');
        }
    }
    reveal_strlit("*** Delete File: ");
    law_ends("*** Delete File: "@, name);
    assert(("*** Delete File: "@ + name).skip("*** Delete File: "@.len() as int) =~= name);
    reveal_strlit("*** Add File: ");
    law_ends("*** Add File: "@, name);
    assert(("*** Add File: "@ + name).skip("*** Add File: "@.len() as int) =~= name);
    reveal_strlit("*** Update File: ");
    law_ends("*** Update File: "@, name);
    assert(("*** Update File: "@ + name).skip("*** Update File: "@.len() as int) =~= name);
    reveal_strlit("*** Move to: ");
    law_ends("*** Move to: "@, name);
    assert(("*** Move to: "@ + name).skip("*** Move to: "@.len() as int) =~= name);
    assert(!has_prefix("*** Add File: "@ + name, "*** Delete File: "@)) by {
        if has_prefix("*** Add File: "@ + name, "*** Delete File: "@) {
            assert(("*** Add File: "@ + name).subrange(0, 17)[4] == ("*** Add File: "@ + name)[4]);
        }
    }
    assert(!has_prefix("*** Update File: "@ + name, "*** Delete File: "@)) by {
        if has_prefix("*** Update File: "@ + name, "*** Delete File: "@) {
            assert(("*** Update File: "@ + name).subrange(0, 17)[4] == ("*** Update File: "@ + name)[4]);
        }
    }
    assert(!has_prefix("*** Update File: "@ + name, "*** Add File: "@)) by {
        if has_prefix("*** Update File: "@ + name, "*** Add File: "@) {
            assert(("*** Update File: "@ + name).subrange(0, 14)[4] == ("*** Update File: "@ + name)[4]);
        }
    }
    assert(!has_prefix("*** Move to: "@ + name, "*** Delete File: "@)) by {
        if has_prefix("*** Move to: "@ + name, "*** Delete File: "@) {
            assert(("*** Move to: "@ + name).subrange(0, 17)[4] == ("*** Move to: "@ + name)[4]);
        }
    }
    assert(!has_prefix("*** Move to: "@ + name, "*** Add File: "@)) by {
        if has_prefix("*** Move to: "@ + name, "*** Add File: "@) {
            assert(("*** Move to: "@ + name).subrange(0, 14)[4] == ("*** Move to: "@ + name)[4]);
        }
    }
    assert(!has_prefix("*** Move to: "@ + name, "*** Update File: "@)) by {
        if has_prefix("*** Move to: "@ + name, "*** Update File: "@) {
            assert(("*** Move to: "@ + name).subrange(0, 17)[4] == ("*** Move to: "@ + name)[4]);
        }
    }
}

/// A line that does not start with three stars names no file.
pub proof fn law_other_lines(line: Seq<char>)
    requires
        line.len() > 0 ==> line[0] != '*',
    ensures
        line_entry(line) is None,
{
    reveal_strlit("*** Delete File: ");
    if has_prefix(line, "*** Delete File: "@) {
        assert(line.subrange(0, 17)[0] == line[0]);
    }
    reveal_strlit("*** Add File: ");
    if has_prefix(line, "*** Add File: "@) {
        assert(line.subrange(0, 14)[0] == line[0]);
    }
    reveal_strlit("*** Update File: ");
    if has_prefix(line, "*** Update File: "@) {
        assert(line.subrange(0, 17)[0] == line[0]);
    }
    reveal_strlit("*** Move to: ");
    if has_prefix(line, "*** Move to: "@) {
        assert(line.subrange(0, 13)[0] == line[0]);
    }
}

/// The files of a patch are those that its lines name, in order.
pub proof fn law_patch_entries(lines: Seq<Seq<char>>, line: Seq<char>)
    ensures
        entries_of(Seq::empty()) == Seq::<PatchEntryView>::empty(),
        line_entry(line) matches Some(entry) ==> entries_of(lines.push(line)) == entries_of(
            lines,
        ).push(entry),
        line_entry(line) is None ==> entries_of(lines.push(line)) == entries_of(lines),
{
    assert(lines.push(line).drop_last() =~= lines);
}

// Answers.

/// An answer speaks of a failure where one of its signs stands in it, in any
/// case.
pub proof fn law_failures_are_seen(p: Seq<char>, word: Seq<char>, q: Seq<char>)
    requires
        spelled(word, "error"@) || spelled(word, "failed"@) || spelled(word, "invalid context"@) || spelled(word, "patch failed"@) || spelled(word, "did not apply"@) || spelled(word, "exception"@),
    ensures
        !no_failure(p + word + q),
{
    reveal_strlit("error");
    reveal_strlit("failed");
    reveal_strlit("invalid context");
    reveal_strlit("patch failed");
    reveal_strlit("did not apply");
    reveal_strlit("exception");
    if spelled(word, "error"@) {
        lemma_sign(p, word, q, "error"@);
    } else if spelled(word, "failed"@) {
        lemma_sign(p, word, q, "failed"@);
    } else if spelled(word, "invalid context"@) {
        lemma_sign(p, word, q, "invalid context"@);
    } else if spelled(word, "patch failed"@) {
        lemma_sign(p, word, q, "patch failed"@);
    } else if spelled(word, "did not apply"@) {
        lemma_sign(p, word, q, "did not apply"@);
    } else if spelled(word, "exception"@) {
        lemma_sign(p, word, q, "exception"@);
    }
}

proof fn lemma_sign(p: Seq<char>, word: Seq<char>, q: Seq<char>, lower: Seq<char>)
    requires
        spelled(word, lower),
        lower_ascii(lower),
    ensures
        has_text(ascii_lowercase(p + word + q), lower),
{
    lemma_spelled(word, lower);
    let s = p + word + q;
    let t = ascii_lowercase(s);
    let at = p.len() as int;
    assert(t.subrange(at, at + lower.len()) =~= lower) by {
        assert forall|i: int| 0 <= i < lower.len() implies t.subrange(at, at + lower.len())[i]
            == lower[i] by {
            assert(s[at + i] == word[i]);
            assert(ascii_lowercase(word)[i] == lower[i]);
        }
    }
    assert(occurs_at(t, lower, at));
}

/// An answer in which none of the signs can stand speaks of no failure.
pub proof fn law_quiet_answers(answer: Seq<char>)
    requires
        forall|i: int|
            0 <= i < answer.len() ==> #[trigger] answer[i] != 'e' && answer[i] != 'E' && answer[i]
                != 'y' && answer[i] != 'Y',
    ensures
        no_failure(answer),
{
    let t = ascii_lowercase(answer);
    assert forall|i: int| 0 <= i < t.len() implies #[trigger] t[i] != 'e' && t[i] != 'y' by {
        assert(answer[i] != 'e' && answer[i] != 'E');
    }
    reveal_strlit("error");
    if has_text(t, "error"@) {
        let at = choose|at: int| #[trigger] occurs_at(t, "error"@, at);
        assert(t.subrange(at, at + 5)[0] == "error"@[0]);
        assert(t[at + 0] == 'e');
    }
    reveal_strlit("failed");
    if has_text(t, "failed"@) {
        let at = choose|at: int| #[trigger] occurs_at(t, "failed"@, at);
        assert(t.subrange(at, at + 6)[4] == "failed"@[4]);
        assert(t[at + 4] == 'e');
    }
    reveal_strlit("invalid context");
    if has_text(t, "invalid context"@) {
        let at = choose|at: int| #[trigger] occurs_at(t, "invalid context"@, at);
        assert(t.subrange(at, at + 15)[12] == "invalid context"@[12]);
        assert(t[at + 12] == 'e');
    }
    reveal_strlit("patch failed");
    if has_text(t, "patch failed"@) {
        let at = choose|at: int| #[trigger] occurs_at(t, "patch failed"@, at);
        assert(t.subrange(at, at + 12)[10] == "patch failed"@[10]);
        assert(t[at + 10] == 'e');
    }
    reveal_strlit("did not apply");
    if has_text(t, "did not apply"@) {
        let at = choose|at: int| #[trigger] occurs_at(t, "did not apply"@, at);
        assert(t.subrange(at, at + 13)[12] == "did not apply"@[12]);
        assert(t[at + 12] == 'y');
    }
    reveal_strlit("exception");
    if has_text(t, "exception"@) {
        let at = choose|at: int| #[trigger] occurs_at(t, "exception"@, at);
        assert(t.subrange(at, at + 9)[0] == "exception"@[0]);
        assert(t[at + 0] == 'e');
    }
}

} // verus!
