//! The arguments of the commands that are understood.
#![verifier::loop_isolation(false)]

use crate::case::{lowered, to_lowercase};
use crate::split::{split_at_first, split_char, split_on, split_once};
use crate::text::{
    clone_option, ends_char, ends_with_char, has_prefix, push_item, same, starts_char, starts_with,
    starts_with_char, text_range, to_chars, trim, trim_start_class, trimmed, trimmed_start,
    CharClass,
};
use vstd::prelude::*;
use vstd::string::*;

verus! {

// Single arguments.

/// The token at a position, if there is one.
pub open spec fn token_at(tokens: Seq<Seq<char>>, i: int) -> Option<Seq<char>> {
    if 0 <= i < tokens.len() {
        Some(tokens[i])
    } else {
        None
    }
}

/// The token at a position, if there is one.
pub fn get_token(tokens: &Vec<String>, i: usize) -> (r: Option<String>)
    ensures
        r.deep_view() == token_at(tokens.deep_view(), i as int),
{
    if i < tokens.len() {
        Some(tokens[i].clone())
    } else {
        None
    }
}

/// How many tokens are left from position `i` on.
pub open spec fn tokens_left(tokens: Seq<Seq<char>>, i: int) -> nat {
    if 0 <= i < tokens.len() {
        (tokens.len() - i) as nat
    } else {
        0
    }
}

/// What follows the first colon of an argument.
pub open spec fn after_colon(token: Seq<char>) -> Option<Seq<char>> {
    match split_at_first(token, ':') {
        Some((_, value)) => Some(value),
        None => None,
    }
}

/// What follows the first colon of an argument.
pub fn colon_value(token: &str) -> (r: Option<String>)
    ensures
        r.deep_view() == after_colon(token@),
{
    match split_once(token, ':') {
        Some((_, value)) => Some(value),
        None => None,
    }
}

/// Whether a lower-case argument names a path.
pub open spec fn path_option(t: Seq<char>) -> bool {
    t == "-path"@ || t == "-literalpath"@
}

/// Whether a lower-case argument names a path and holds it.
pub open spec fn path_colon_option(t: Seq<char>) -> bool {
    has_prefix(t, "-path:"@) || has_prefix(t, "-literalpath:"@)
}

/// Whether a lower-case argument names a path.
pub fn is_path_option(t: &str) -> (r: bool)
    ensures
        r == path_option(t@),
{
    same(t, "-path") || same(t, "-literalpath")
}

/// Whether a lower-case argument names a path and holds it.
pub fn is_path_colon_option(t: &str) -> (r: bool)
    ensures
        r == path_colon_option(t@),
{
    starts_with(t, "-path:") || starts_with(t, "-literalpath:")
}

// Lists of paths.

/// One path of a list: without white space and leading commas, and without
/// the quotes around it. A single quote sign is left as it is.
pub open spec fn path_fragment(value: Seq<char>) -> Seq<char> {
    let f = trimmed(trimmed_start(trimmed(value), CharClass::Only(',')));
    if f.len() >= 2 && ((starts_char(f, '"') && ends_char(f, '"')) || (starts_char(f, '\'')
        && ends_char(f, '\''))) {
        f.subrange(1, f.len() - 1)
    } else {
        f
    }
}

/// One path of a list.
pub fn clean_path_fragment(value: &str) -> (r: String)
    ensures
        r@ == path_fragment(value@),
{
    let a = trim(value);
    let b = trim_start_class(a.as_str(), CharClass::Only(','));
    let f = trim(b.as_str());
    let quoted = (starts_with_char(f.as_str(), '"') && ends_with_char(f.as_str(), '"')) || (
    starts_with_char(f.as_str(), '\'') && ends_with_char(f.as_str(), '\''));
    let chars = to_chars(f.as_str());
    if chars.len() >= 2 && quoted {
        text_range(&chars, 1, chars.len() - 1)
    } else {
        f
    }
}

/// The parts that are not empty once cleaned.
pub open spec fn fragments(parts: Seq<Seq<char>>) -> Seq<Seq<char>>
    decreases parts.len(),
{
    if parts.len() == 0 {
        Seq::empty()
    } else {
        let before = fragments(parts.drop_last());
        let last = path_fragment(parts.last());
        if last.len() == 0 {
            before
        } else {
            before.push(last)
        }
    }
}

/// The paths of a list with commas.
pub open spec fn argument_list(value: Seq<char>) -> Seq<Seq<char>> {
    fragments(split_on(value, ','))
}

/// Appends the paths of a list with commas.
pub fn extend_argument_list(list: &mut Vec<String>, value: &str)
    ensures
        final(list).deep_view() == old(list).deep_view() + argument_list(value@),
{
    let parts = split_char(value, ',');
    let ghost view = parts.deep_view();
    let ghost before = list.deep_view();
    let mut i: usize = 0;
    assert(before + fragments(view.take(0)) =~= before);
    while i < parts.len()
        invariant
            i <= parts.len(),
            list.deep_view() == before + fragments(view.take(i as int)),
        decreases parts.len() - i,
    {
        let part = clean_path_fragment(parts[i].as_str());
        proof {
            assert(view.take(i + 1).drop_last() =~= view.take(i as int));
            assert(view.take(i + 1).last() == parts[i as int]@);
        }
        if part.as_str().unicode_len() > 0 {
            push_item(list, part);
        }
        i += 1;
        assert(list.deep_view() =~= before + fragments(view.take(i as int)));
    }
    assert(view.take(i as int) =~= view);
}

/// The paths of a list with commas.
pub fn split_argument_list(value: &str) -> (r: Vec<String>)
    ensures
        r.deep_view() == argument_list(value@),
{
    let mut list: Vec<String> = Vec::new();
    extend_argument_list(&mut list, value);
    assert(Seq::<Seq<char>>::empty() + argument_list(value@) =~= argument_list(value@));
    list
}

/// Further paths of a list that white space breaks up, from position `i` on:
/// the paths, and the position of the first token that is not part of the
/// list. After a lone comma any token belongs to the list.
pub open spec fn list_tail(
    tokens: Seq<Seq<char>>,
    i: int,
    roots: Seq<Seq<char>>,
    pending: bool,
) -> (Seq<Seq<char>>, int)
    decreases tokens.len() - i,
{
    if i >= tokens.len() {
        (roots, i)
    } else {
        let token = trimmed(tokens[i]);
        if token.len() == 0 {
            list_tail(tokens, i + 1, roots, pending)
        } else if token == seq![','] {
            list_tail(tokens, i + 1, roots, true)
        } else if pending || starts_char(token, ',') {
            list_tail(tokens, i + 1, roots + argument_list(token), false)
        } else {
            (roots, i)
        }
    }
}

proof fn lemma_list_tail(tokens: Seq<Seq<char>>, i: int, roots: Seq<Seq<char>>, pending: bool)
    requires
        0 <= i,
    ensures
        i <= list_tail(tokens, i, roots, pending).1,
        i <= tokens.len() ==> list_tail(tokens, i, roots, pending).1 <= tokens.len(),
    decreases tokens.len() - i,
{
    if i < tokens.len() {
        let token = trimmed(tokens[i]);
        if token.len() == 0 {
            lemma_list_tail(tokens, i + 1, roots, pending);
        } else if token == seq![','] {
            lemma_list_tail(tokens, i + 1, roots, true);
        } else if pending || starts_char(token, ',') {
            lemma_list_tail(tokens, i + 1, roots + argument_list(token), false);
        }
    }
}

/// Takes the further paths of a list, and gives the position behind it.
pub fn consume_path_list_tail(tokens: &Vec<String>, start: usize, roots: &mut Vec<String>) -> (r:
    usize)
    requires
        start <= tokens.len(),
    ensures
        (final(roots).deep_view(), r as int) == list_tail(
            tokens.deep_view(),
            start as int,
            old(roots).deep_view(),
            false,
        ),
        start <= r <= tokens.len(),
{
    let ghost view = tokens.deep_view();
    let ghost first = roots.deep_view();
    let mut index: usize = start;
    let mut pending = false;
    while index < tokens.len()
        invariant
            start <= index <= tokens.len(),
            list_tail(view, index as int, roots.deep_view(), pending) == list_tail(
                view,
                start as int,
                first,
                false,
            ),
        decreases tokens.len() - index,
    {
        assert(view[index as int] == tokens[index as int]@);
        let token = trim(tokens[index].as_str());
        let chars = to_chars(token.as_str());
        if chars.len() == 0 {
            index += 1;
            continue;
        }
        if chars.len() == 1 && chars[0] == ',' {
            assert(token@ =~= seq![',']);
            pending = true;
            index += 1;
            continue;
        }
        assert(token@ != seq![',']) by {
            if token@ == seq![','] {
                assert(chars@[0] == ',');
            }
        }
        if pending || chars[0] == ',' {
            extend_argument_list(roots, token.as_str());
            pending = false;
            index += 1;
            continue;
        }
        break;
    }
    index
}

// Listings.

/// What the arguments of a listing ask for.
#[derive(Debug)]
pub struct GciOptions {
    pub roots: Vec<String>,
    pub filter: Option<String>,
    pub included: Option<String>,
    pub recurse: bool,
    pub names_only: bool,
    pub files_only: bool,
    pub directories_only: bool,
}

/// The contents of the arguments of a listing.
#[verifier::ext_equal]
pub ghost struct GciView {
    pub roots: Seq<Seq<char>>,
    pub filter: Option<Seq<char>>,
    pub included: Option<Seq<char>>,
    pub recurse: bool,
    pub names_only: bool,
    pub files_only: bool,
    pub directories_only: bool,
}

impl DeepView for GciOptions {
    type V = GciView;

    open spec fn deep_view(&self) -> GciView {
        GciView {
            roots: self.roots.deep_view(),
            filter: self.filter.deep_view(),
            included: self.included.deep_view(),
            recurse: self.recurse,
            names_only: self.names_only,
            files_only: self.files_only,
            directories_only: self.directories_only,
        }
    }
}

/// No arguments.
pub open spec fn no_gci() -> GciView {
    GciView {
        roots: Seq::empty(),
        filter: None,
        included: None,
        recurse: false,
        names_only: false,
        files_only: false,
        directories_only: false,
    }
}

/// Reads the arguments of a listing from position `i` on, on top of what is
/// read: the options, and the paths that stand for themselves. Paths may be
/// lists. An unknown option makes the whole unreadable.
pub open spec fn gci_scan(
    tokens: Seq<Seq<char>>,
    i: int,
    options: GciView,
    positional: Seq<Seq<char>>,
) -> Option<(GciView, Seq<Seq<char>>)>
    decreases tokens_left(tokens, i),
{
    if i < 0 || i >= tokens.len() {
        Some((options, positional))
    } else {
        let token = tokens[i];
        let t = lowered(token);
        if t == "-recurse"@ || t == "-r"@ {
            gci_scan(tokens, i + 1, GciView { recurse: true, ..options }, positional)
        } else if t == "-file"@ || t == "/a-d"@ {
            gci_scan(tokens, i + 1, GciView { files_only: true, ..options }, positional)
        } else if t == "-force"@ {
            gci_scan(tokens, i + 1, options, positional)
        } else if t == "-name"@ {
            gci_scan(tokens, i + 1, GciView { names_only: true, ..options }, positional)
        } else if t == "-directory"@ || t == "/ad"@ {
            gci_scan(tokens, i + 1, GciView { directories_only: true, ..options }, positional)
        } else if path_option(t) {
            if i + 1 < tokens.len() {
                let (roots, next) = list_tail(
                    tokens,
                    i + 2,
                    options.roots + argument_list(tokens[i + 1]),
                    false,
                );
                if i < next {
                    gci_scan(tokens, next, GciView { roots, ..options }, positional)
                } else {
                    None
                }
            } else {
                Some((options, positional))
            }
        } else if t == "-filter"@ {
            gci_scan(
                tokens,
                i + 2,
                GciView { filter: token_at(tokens, i + 1), ..options },
                positional,
            )
        } else if t == "-include"@ {
            gci_scan(
                tokens,
                i + 2,
                GciView { included: token_at(tokens, i + 1), ..options },
                positional,
            )
        } else if t == "-erroraction"@ || t == "-ea"@ {
            gci_scan(tokens, i + 2, options, positional)
        } else if path_colon_option(t) {
            match after_colon(token) {
                Some(value) => {
                    let (roots, next) = list_tail(
                        tokens,
                        i + 1,
                        options.roots + argument_list(value),
                        false,
                    );
                    if i < next {
                        gci_scan(tokens, next, GciView { roots, ..options }, positional)
                    } else {
                        None
                    }
                },
                None => gci_scan(tokens, i + 1, options, positional),
            }
        } else if has_prefix(t, "-filter:"@) {
            gci_scan(
                tokens,
                i + 1,
                GciView { filter: after_colon(token), ..options },
                positional,
            )
        } else if has_prefix(t, "-include:"@) {
            gci_scan(
                tokens,
                i + 1,
                GciView { included: after_colon(token), ..options },
                positional,
            )
        } else if starts_char(t, '-') {
            None
        } else {
            gci_scan(tokens, i + 1, options, positional + argument_list(token))
        }
    }
}

/// The arguments of a listing as a whole. Where no option gives a root, the
/// first free path does, else the working directory; no other path may stand
/// free.
pub open spec fn gci_listing(tokens: Seq<Seq<char>>, cwd: Option<Seq<char>>) -> Option<GciView> {
    match gci_scan(tokens, 0, no_gci(), Seq::empty()) {
        Some((options, positional)) => if options.roots.len() > 0 {
            if positional.len() > 0 {
                None
            } else {
                Some(options)
            }
        } else if positional.len() > 1 {
            None
        } else if positional.len() == 1 {
            Some(GciView { roots: positional, ..options })
        } else {
            Some(
                GciView {
                    roots: match cwd {
                        Some(cwd) => seq![cwd],
                        None => Seq::empty(),
                    },
                    ..options
                },
            )
        },
        None => None,
    }
}

/// The arguments of a listing that goes through a search for files, where
/// names alone or directories alone cannot be asked for.
pub open spec fn gci_search(tokens: Seq<Seq<char>>, cwd: Option<Seq<char>>) -> Option<GciView> {
    match gci_listing(tokens, cwd) {
        Some(options) => if options.names_only || options.directories_only {
            None
        } else {
            Some(options)
        },
        None => None,
    }
}

#[verifier::rlimit(40)]
fn scan_gci(tokens: &Vec<String>, options: &mut GciOptions, positional: &mut Vec<String>) -> (r:
    bool)
    requires
        old(options).deep_view() == no_gci(),
        old(positional).deep_view() == Seq::<Seq<char>>::empty(),
    ensures
        match gci_scan(tokens.deep_view(), 0, no_gci(), Seq::empty()) {
            Some((view, free)) => r && final(options).deep_view() == view
                && final(positional).deep_view() == free,
            None => !r,
        },
{
    let ghost view = tokens.deep_view();
    let ghost all = gci_scan(view, 0, no_gci(), Seq::empty());
    let mut index: usize = 0;
    while index < tokens.len()
        invariant
            index <= tokens.len(),
            gci_scan(view, index as int, options.deep_view(), positional.deep_view()) == all,
        decreases tokens.len() - index,
    {
        let ghost before = options.deep_view();
        let ghost free = positional.deep_view();
        let ghost at = index as int;
        assert(view[index as int] == tokens[index as int]@);
        let lower = to_lowercase(tokens[index].as_str());
        let t = lower.as_str();
        if same(t, "-recurse") || same(t, "-r") {
            options.recurse = true;
            index += 1;
        } else if same(t, "-file") || same(t, "/a-d") {
            options.files_only = true;
            index += 1;
        } else if same(t, "-force") {
            index += 1;
        } else if same(t, "-name") {
            options.names_only = true;
            index += 1;
        } else if same(t, "-directory") || same(t, "/ad") {
            options.directories_only = true;
            index += 1;
        } else if is_path_option(t) {
            if index + 1 < tokens.len() {
                assert(view[index + 1] == tokens[index + 1]@);
                extend_argument_list(&mut options.roots, tokens[index + 1].as_str());
                proof {
                    lemma_list_tail(view, index + 2, options.roots.deep_view(), false);
                }
                index = consume_path_list_tail(tokens, index + 2, &mut options.roots);
            } else {
                return true;
            }
        } else if same(t, "-filter") {
            options.filter = get_token(tokens, index + 1);
            if tokens.len() - index <= 1 {
                assert(gci_scan(view, at + 2, options.deep_view(), free) == Some(
                    (options.deep_view(), free),
                ));
                return true;
            }
            index += 2;
        } else if same(t, "-include") {
            options.included = get_token(tokens, index + 1);
            if tokens.len() - index <= 1 {
                assert(gci_scan(view, at + 2, options.deep_view(), free) == Some(
                    (options.deep_view(), free),
                ));
                return true;
            }
            index += 2;
        } else if same(t, "-erroraction") || same(t, "-ea") {
            if tokens.len() - index <= 1 {
                assert(gci_scan(view, at + 2, options.deep_view(), free) == Some(
                    (options.deep_view(), free),
                ));
                return true;
            }
            index += 2;
        } else if is_path_colon_option(t) {
            match colon_value(tokens[index].as_str()) {
                Some(value) => {
                    extend_argument_list(&mut options.roots, value.as_str());
                    proof {
                        lemma_list_tail(view, index + 1, options.roots.deep_view(), false);
                    }
                    index = consume_path_list_tail(tokens, index + 1, &mut options.roots);
                },
                None => {
                    index += 1;
                },
            }
        } else if starts_with(t, "-filter:") {
            options.filter = colon_value(tokens[index].as_str());
            index += 1;
        } else if starts_with(t, "-include:") {
            options.included = colon_value(tokens[index].as_str());
            index += 1;
        } else if starts_with_char(t, '-') {
            return false;
        } else {
            extend_argument_list(positional, tokens[index].as_str());
            index += 1;
        }
    }
    true
}

/// Reads the arguments of a listing.
pub fn parse_gci_listing(tokens: &Vec<String>, cwd: Option<&str>) -> (r: Option<GciOptions>)
    ensures
        r.deep_view() == gci_listing(tokens.deep_view(), cwd.deep_view()),
{
    let mut options = GciOptions {
        roots: Vec::new(),
        filter: None,
        included: None,
        recurse: false,
        names_only: false,
        files_only: false,
        directories_only: false,
    };
    let mut positional: Vec<String> = Vec::new();
    assert(options.deep_view() =~= no_gci());
    assert(positional.deep_view() =~= Seq::<Seq<char>>::empty());
    if !scan_gci(tokens, &mut options, &mut positional) {
        return None;
    }
    let ghost scanned = options.deep_view();
    let ghost free = positional.deep_view();
    if options.roots.len() > 0 {
        if positional.len() > 0 {
            return None;
        }
    } else if positional.len() > 1 {
        return None;
    } else if positional.len() == 1 {
        options.roots = positional;
    } else if let Some(cwd) = cwd {
        assert(options.roots.deep_view() =~= Seq::<Seq<char>>::empty());
        push_item(&mut options.roots, cwd.to_owned());
        assert(options.roots.deep_view() =~= seq![cwd@]);
    } else {
        assert(options.roots.deep_view() =~= Seq::<Seq<char>>::empty());
    }
    Some(options)
}

/// Reads the arguments of a listing that goes through a search for files.
pub fn parse_gci_options(tokens: &Vec<String>, cwd: Option<&str>) -> (r: Option<GciOptions>)
    ensures
        r.deep_view() == gci_search(tokens.deep_view(), cwd.deep_view()),
{
    match parse_gci_listing(tokens, cwd) {
        Some(options) => {
            if options.names_only || options.directories_only {
                None
            } else {
                Some(options)
            }
        },
        None => None,
    }
}

/// The pattern that a listing asks for, if any.
pub open spec fn gci_pattern(options: GciView) -> Option<Seq<char>> {
    if options.filter is Some {
        options.filter
    } else {
        options.included
    }
}

impl GciOptions {
    /// The pattern that the listing asks for, if any.
    pub fn pattern(&self) -> (r: Option<String>)
        ensures
            r.deep_view() == gci_pattern(self.deep_view()),
    {
        match &self.filter {
            Some(filter) => Some(filter.clone()),
            None => clone_option(&self.included),
        }
    }

    /// The first root of the listing, if any.
    pub fn first_root(&self) -> (r: Option<String>)
        ensures
            r.deep_view() == token_at(self.deep_view().roots, 0),
    {
        if self.roots.len() > 0 {
            assert(self.roots.deep_view()[0] == self.roots[0]@);
            Some(self.roots[0].clone())
        } else {
            None
        }
    }
}

} // verus!
