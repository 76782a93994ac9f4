//! The arguments of the commands that read files and search in them.
#![verifier::loop_isolation(false)]

use super::arguments::{
    after_colon, colon_value, get_token, is_path_colon_option, is_path_option, path_colon_option,
    path_option, token_at, tokens_left,
};
use super::operation::ReadWindow;
use crate::case::{lowered, to_lowercase};
use crate::number::{parse_usize, read_unsigned};
use crate::split::{split_at_first, split_once};
use crate::text::{push_item, same, starts_char, starts_with_char, texts_from};
use vstd::prelude::*;
use vstd::string::*;

verus! {

// Searches.

/// How many lines before and after a match are wanted: two numbers with a
/// comma between them, or one for both.
pub open spec fn context_of(value: Seq<char>) -> Option<(usize, usize)> {
    match split_at_first(value, ',') {
        Some((before, after)) => match (read_unsigned(before), read_unsigned(after)) {
            (Some(before), Some(after)) => Some((before, after)),
            _ => None,
        },
        None => match read_unsigned(value) {
            Some(count) => Some((count, count)),
            None => None,
        },
    }
}

/// How many lines before and after a match are wanted.
pub fn parse_context(value: &str) -> (r: Option<(usize, usize)>)
    ensures
        r == context_of(value@),
{
    match split_once(value, ',') {
        Some((before, after)) => match (parse_usize(before.as_str()), parse_usize(after.as_str())) {
            (Some(before), Some(after)) => Some((before, after)),
            _ => None,
        },
        None => match parse_usize(value) {
            Some(count) => Some((count, count)),
            None => None,
        },
    }
}

/// The value of the context option at position `i`, and the position behind
/// it. White space may stand before the comma.
pub open spec fn context_at(tokens: Seq<Seq<char>>, i: int) -> Option<((usize, usize), int)> {
    match token_at(tokens, i + 1) {
        None => None,
        Some(value) => match token_at(tokens, i + 2) {
            Some(next) => if starts_char(next, ',') {
                match context_of(value + next) {
                    Some(context) => Some((context, i + 3)),
                    None => None,
                }
            } else {
                match context_of(value) {
                    Some(context) => Some((context, i + 2)),
                    None => None,
                }
            },
            None => match context_of(value) {
                Some(context) => Some((context, i + 2)),
                None => None,
            },
        },
    }
}

fn read_context(tokens: &Vec<String>, i: usize) -> (r: Option<((usize, usize), usize)>)
    requires
        i < tokens.len(),
    ensures
        match r {
            Some((context, next)) => context_at(tokens.deep_view(), i as int) == Some(
                (context, next as int),
            ) && i < next <= tokens.len(),
            None => context_at(tokens.deep_view(), i as int) is None,
        },
{
    let ghost view = tokens.deep_view();
    if tokens.len() - i <= 1 {
        return None;
    }
    assert(view[i + 1] == tokens[i + 1]@);
    if tokens.len() - i > 2 {
        assert(view[i + 2] == tokens[i + 2]@);
        if starts_with_char(tokens[i + 2].as_str(), ',') {
            let mut joined = tokens[i + 1].clone();
            joined.append(tokens[i + 2].as_str());
            return match parse_context(joined.as_str()) {
                Some(context) => Some((context, i + 3)),
                None => None,
            };
        }
    }
    match parse_context(tokens[i + 1].as_str()) {
        Some(context) => Some((context, i + 2)),
        None => None,
    }
}

/// What the arguments of a search ask for.
#[derive(Debug, PartialEq, Eq)]
pub struct SelectStringOptions {
    pub pattern: Option<String>,
    pub roots: Vec<String>,
    pub context: Option<(usize, usize)>,
    pub case_sensitive: bool,
    pub simple_match: bool,
    /// The arguments that stand for themselves.
    pub positional: Vec<String>,
}

/// The contents of the arguments of a search.
#[verifier::ext_equal]
pub ghost struct SelectView {
    pub pattern: Option<Seq<char>>,
    pub roots: Seq<Seq<char>>,
    pub context: Option<(usize, usize)>,
    pub case_sensitive: bool,
    pub simple_match: bool,
    pub positional: Seq<Seq<char>>,
}

impl DeepView for SelectStringOptions {
    type V = SelectView;

    open spec fn deep_view(&self) -> SelectView {
        SelectView {
            pattern: self.pattern.deep_view(),
            roots: self.roots.deep_view(),
            context: self.context,
            case_sensitive: self.case_sensitive,
            simple_match: self.simple_match,
            positional: self.positional.deep_view(),
        }
    }
}

/// No arguments.
pub open spec fn no_select() -> SelectView {
    SelectView {
        pattern: None,
        roots: Seq::empty(),
        context: None,
        case_sensitive: false,
        simple_match: false,
        positional: Seq::empty(),
    }
}

/// Reads the arguments of a search from position `i` on, on top of what is
/// read. `paths` tells whether they may name paths. An unknown option, or a
/// context that is no number, makes the whole unreadable.
pub open spec fn select_scan(
    tokens: Seq<Seq<char>>,
    i: int,
    options: SelectView,
    paths: bool,
) -> Option<SelectView>
    decreases tokens_left(tokens, i),
{
    if i < 0 || i >= tokens.len() {
        Some(options)
    } else {
        let t = lowered(tokens[i]);
        if t == "-pattern"@ {
            select_scan(
                tokens,
                i + 2,
                SelectView { pattern: token_at(tokens, i + 1), ..options },
                paths,
            )
        } else if paths && path_option(t) {
            select_scan(
                tokens,
                i + 2,
                match token_at(tokens, i + 1) {
                    Some(value) => SelectView { roots: options.roots.push(value), ..options },
                    None => options,
                },
                paths,
            )
        } else if t == "-casesensitive"@ {
            select_scan(tokens, i + 1, SelectView { case_sensitive: true, ..options }, paths)
        } else if t == "-simplematch"@ {
            select_scan(tokens, i + 1, SelectView { simple_match: true, ..options }, paths)
        } else if t == "-context"@ {
            match context_at(tokens, i) {
                Some((context, next)) => if i < next {
                    select_scan(
                        tokens,
                        next,
                        SelectView { context: Some(context), ..options },
                        paths,
                    )
                } else {
                    None
                },
                None => None,
            }
        } else if starts_char(t, '-') {
            None
        } else {
            select_scan(
                tokens,
                i + 1,
                SelectView { positional: options.positional.push(tokens[i]), ..options },
                paths,
            )
        }
    }
}

/// The arguments of a search. Where no option gives the pattern, the first
/// argument that stands for itself does.
pub open spec fn select_options(tokens: Seq<Seq<char>>, paths: bool) -> Option<SelectView> {
    match select_scan(tokens, 0, no_select(), paths) {
        Some(options) => if options.pattern is None && options.positional.len() > 0 {
            Some(
                SelectView {
                    pattern: Some(options.positional[0]),
                    positional: options.positional.skip(1),
                    ..options
                },
            )
        } else {
            Some(options)
        },
        None => None,
    }
}

/// Reads the arguments of a search.
#[verifier::rlimit(40)]
pub fn parse_select_string_options(tokens: &Vec<String>, paths: bool) -> (r: Option<
    SelectStringOptions,
>)
    ensures
        r.deep_view() == select_options(tokens.deep_view(), paths),
{
    let ghost view = tokens.deep_view();
    let ghost all = select_scan(view, 0, no_select(), paths);
    let mut options = SelectStringOptions {
        pattern: None,
        roots: Vec::new(),
        context: None,
        case_sensitive: false,
        simple_match: false,
        positional: Vec::new(),
    };
    assert(options.deep_view() =~= no_select());
    let mut index: usize = 0;
    while index < tokens.len()
        invariant
            index <= tokens.len(),
            select_scan(view, index as int, options.deep_view(), paths) == all,
        decreases tokens.len() - index,
    {
        let ghost at = index as int;
        assert(view[index as int] == tokens[index as int]@);
        let lower = to_lowercase(tokens[index].as_str());
        let t = lower.as_str();
        if same(t, "-pattern") {
            options.pattern = get_token(tokens, index + 1);
            if tokens.len() - index <= 1 {
                assert(select_scan(view, at + 2, options.deep_view(), paths) == Some(
                    options.deep_view(),
                ));
                break;
            }
            index += 2;
        } else if paths && is_path_option(t) {
            if tokens.len() - index <= 1 {
                assert(select_scan(view, at + 2, options.deep_view(), paths) == Some(
                    options.deep_view(),
                ));
                break;
            }
            assert(view[index + 1] == tokens[index + 1]@);
            push_item(&mut options.roots, tokens[index + 1].clone());
            index += 2;
        } else if same(t, "-casesensitive") {
            options.case_sensitive = true;
            index += 1;
        } else if same(t, "-simplematch") {
            options.simple_match = true;
            index += 1;
        } else if same(t, "-context") {
            match read_context(tokens, index) {
                Some((context, next)) => {
                    options.context = Some(context);
                    index = next;
                },
                None => {
                    return None;
                },
            }
        } else if starts_with_char(t, '-') {
            return None;
        } else {
            push_item(&mut options.positional, tokens[index].clone());
            index += 1;
        }
    }
    assert(all == Some(options.deep_view()));
    if options.pattern.is_none() && options.positional.len() > 0 {
        assert(options.positional.deep_view()[0] == options.positional[0]@);
        options.pattern = Some(options.positional[0].clone());
        options.positional = texts_from(&options.positional, 1);
    }
    Some(options)
}

/// The pattern of a search that only takes a pattern and flags: the value of
/// the first pattern option, else the first argument that stands for itself.
pub open spec fn pattern_scan(tokens: Seq<Seq<char>>, i: int, first: Option<Seq<char>>) -> Option<
    Seq<char>,
>
    decreases tokens_left(tokens, i),
{
    if i < 0 || i >= tokens.len() {
        first
    } else {
        let t = lowered(tokens[i]);
        if t == "-pattern"@ {
            token_at(tokens, i + 1)
        } else if t == "-casesensitive"@ || t == "-simplematch"@ {
            pattern_scan(tokens, i + 1, first)
        } else if starts_char(t, '-') {
            None
        } else {
            pattern_scan(
                tokens,
                i + 1,
                if first is None {
                    Some(tokens[i])
                } else {
                    first
                },
            )
        }
    }
}

/// The pattern of a search that only takes a pattern and flags.
pub fn parse_select_string_pattern(tokens: &Vec<String>) -> (r: Option<String>)
    ensures
        r.deep_view() == pattern_scan(tokens.deep_view(), 0, None),
{
    let ghost view = tokens.deep_view();
    let mut first: Option<String> = None;
    let mut index: usize = 0;
    while index < tokens.len()
        invariant
            index <= tokens.len(),
            pattern_scan(view, index as int, first.deep_view()) == pattern_scan(view, 0, None),
        decreases tokens.len() - index,
    {
        assert(view[index as int] == tokens[index as int]@);
        let lower = to_lowercase(tokens[index].as_str());
        let t = lower.as_str();
        if same(t, "-pattern") {
            return get_token(tokens, index + 1);
        } else if same(t, "-casesensitive") || same(t, "-simplematch") {
        } else if starts_with_char(t, '-') {
            return None;
        } else if first.is_none() {
            first = Some(tokens[index].clone());
        }
        index += 1;
    }
    first
}

// Reading.

/// The path of a plain reading: the value of the first path option, else the
/// only argument that stands for itself.
pub open spec fn content_path_scan(
    tokens: Seq<Seq<char>>,
    i: int,
    positional: Seq<Seq<char>>,
) -> Option<Seq<char>>
    decreases tokens_left(tokens, i),
{
    if i < 0 || i >= tokens.len() {
        if positional.len() == 1 {
            Some(positional[0])
        } else {
            None
        }
    } else {
        let t = lowered(tokens[i]);
        if path_option(t) {
            token_at(tokens, i + 1)
        } else if path_colon_option(t) {
            after_colon(tokens[i])
        } else if starts_char(t, '-') {
            None
        } else {
            content_path_scan(tokens, i + 1, positional.push(tokens[i]))
        }
    }
}

/// The path of a plain reading.
pub fn parse_get_content_path(tokens: &Vec<String>) -> (r: Option<String>)
    ensures
        r.deep_view() == content_path_scan(tokens.deep_view(), 0, Seq::empty()),
{
    let ghost view = tokens.deep_view();
    let mut positional: Vec<String> = Vec::new();
    let mut index: usize = 0;
    assert(positional.deep_view() =~= Seq::<Seq<char>>::empty());
    while index < tokens.len()
        invariant
            index <= tokens.len(),
            content_path_scan(view, index as int, positional.deep_view()) == content_path_scan(
                view,
                0,
                Seq::empty(),
            ),
        decreases tokens.len() - index,
    {
        assert(view[index as int] == tokens[index as int]@);
        let lower = to_lowercase(tokens[index].as_str());
        let t = lower.as_str();
        if is_path_option(t) {
            return get_token(tokens, index + 1);
        } else if is_path_colon_option(t) {
            return colon_value(tokens[index].as_str());
        } else if starts_with_char(t, '-') {
            return None;
        }
        push_item(&mut positional, tokens[index].clone());
        index += 1;
    }
    if positional.len() == 1 {
        assert(positional.deep_view()[0] == positional[0]@);
        Some(positional[0].clone())
    } else {
        None
    }
}

/// What the arguments of a reading ask for.
#[derive(Debug, PartialEq, Eq)]
pub struct ContentOptions {
    pub path: Option<String>,
    pub raw: bool,
    pub head: Option<usize>,
    pub tail: Option<usize>,
    /// The arguments that stand for themselves.
    pub positional: Vec<String>,
}

/// The contents of the arguments of a reading.
#[verifier::ext_equal]
pub ghost struct ContentView {
    pub path: Option<Seq<char>>,
    pub raw: bool,
    pub head: Option<usize>,
    pub tail: Option<usize>,
    pub positional: Seq<Seq<char>>,
}

impl DeepView for ContentOptions {
    type V = ContentView;

    open spec fn deep_view(&self) -> ContentView {
        ContentView {
            path: self.path.deep_view(),
            raw: self.raw,
            head: self.head,
            tail: self.tail,
            positional: self.positional.deep_view(),
        }
    }
}

/// No arguments.
pub open spec fn no_content() -> ContentView {
    ContentView { path: None, raw: false, head: None, tail: None, positional: Seq::empty() }
}

/// The number at a position.
pub open spec fn number_at(tokens: Seq<Seq<char>>, i: int) -> Option<usize> {
    match token_at(tokens, i) {
        Some(token) => read_unsigned(token),
        None => None,
    }
}

/// The number at a position.
pub fn get_number(tokens: &Vec<String>, i: usize) -> (r: Option<usize>)
    ensures
        r == number_at(tokens.deep_view(), i as int),
{
    if i < tokens.len() {
        assert(tokens.deep_view()[i as int] == tokens[i as int]@);
        parse_usize(tokens[i].as_str())
    } else {
        None
    }
}

/// Reads the arguments of a reading from position `i` on, on top of what is
/// read. `bounded` tells whether they may bound the lines; else the raw flag
/// may stand. An unknown option makes the whole unreadable.
pub open spec fn content_scan(
    tokens: Seq<Seq<char>>,
    i: int,
    options: ContentView,
    bounded: bool,
) -> Option<ContentView>
    decreases tokens_left(tokens, i),
{
    if i < 0 || i >= tokens.len() {
        Some(options)
    } else {
        let t = lowered(tokens[i]);
        if !bounded && t == "-raw"@ {
            content_scan(tokens, i + 1, ContentView { raw: true, ..options }, bounded)
        } else if path_option(t) {
            content_scan(
                tokens,
                i + 2,
                ContentView { path: token_at(tokens, i + 1), ..options },
                bounded,
            )
        } else if bounded && t == "-totalcount"@ {
            match number_at(tokens, i + 1) {
                Some(count) => content_scan(
                    tokens,
                    i + 2,
                    ContentView { head: Some(count), ..options },
                    bounded,
                ),
                None => None,
            }
        } else if bounded && t == "-tail"@ {
            match number_at(tokens, i + 1) {
                Some(count) => content_scan(
                    tokens,
                    i + 2,
                    ContentView { tail: Some(count), ..options },
                    bounded,
                ),
                None => None,
            }
        } else if bounded && (t == "-erroraction"@ || t == "-ea"@) {
            content_scan(tokens, i + 2, options, bounded)
        } else if path_colon_option(t) {
            content_scan(
                tokens,
                i + 1,
                ContentView { path: after_colon(tokens[i]), ..options },
                bounded,
            )
        } else if starts_char(t, '-') {
            None
        } else {
            content_scan(
                tokens,
                i + 1,
                ContentView { positional: options.positional.push(tokens[i]), ..options },
                bounded,
            )
        }
    }
}

/// The one path of a reading: where no option gives it, the only argument
/// that stands for itself; beside an option no argument may.
pub open spec fn content_path(options: ContentView) -> Option<Seq<char>> {
    if options.path is None && options.positional.len() == 1 {
        Some(options.positional[0])
    } else if options.positional.len() > 0 {
        None
    } else {
        options.path
    }
}

/// The path of a whole reading, and whether it is raw.
pub open spec fn inspect_options(tokens: Seq<Seq<char>>) -> Option<(Seq<char>, bool)> {
    match content_scan(tokens, 0, no_content(), false) {
        Some(options) => match content_path(options) {
            Some(path) => Some((path, options.raw)),
            None => None,
        },
        None => None,
    }
}

/// The path of a bounded reading, which end is read, and how many lines.
/// Exactly one of the two bounds must be given.
pub open spec fn bounded_options(tokens: Seq<Seq<char>>) -> Option<
    (Seq<char>, ReadWindow, usize),
> {
    match content_scan(tokens, 0, no_content(), true) {
        Some(options) => match (content_path(options), options.head, options.tail) {
            (Some(path), Some(count), None) => Some((path, ReadWindow::Head, count)),
            (Some(path), None, Some(count)) => Some((path, ReadWindow::Tail, count)),
            _ => None,
        },
        None => None,
    }
}

#[verifier::rlimit(40)]
fn scan_content(tokens: &Vec<String>, bounded: bool) -> (r: Option<ContentOptions>)
    ensures
        r.deep_view() == content_scan(tokens.deep_view(), 0, no_content(), bounded),
{
    let ghost view = tokens.deep_view();
    let ghost all = content_scan(view, 0, no_content(), bounded);
    let mut options = ContentOptions {
        path: None,
        raw: false,
        head: None,
        tail: None,
        positional: Vec::new(),
    };
    assert(options.deep_view() =~= no_content());
    let mut index: usize = 0;
    while index < tokens.len()
        invariant
            index <= tokens.len(),
            content_scan(view, index as int, options.deep_view(), bounded) == all,
        decreases tokens.len() - index,
    {
        let ghost at = index as int;
        assert(view[index as int] == tokens[index as int]@);
        let lower = to_lowercase(tokens[index].as_str());
        let t = lower.as_str();
        let last = tokens.len() - index <= 1;
        if !bounded && same(t, "-raw") {
            options.raw = true;
            index += 1;
        } else if is_path_option(t) {
            options.path = get_token(tokens, index + 1);
            if last {
                assert(content_scan(view, at + 2, options.deep_view(), bounded) == Some(
                    options.deep_view(),
                ));
                return Some(options);
            }
            index += 2;
        } else if bounded && same(t, "-totalcount") {
            match get_number(tokens, index + 1) {
                Some(count) => {
                    options.head = Some(count);
                    index += 2;
                },
                None => {
                    return None;
                },
            }
        } else if bounded && same(t, "-tail") {
            match get_number(tokens, index + 1) {
                Some(count) => {
                    options.tail = Some(count);
                    index += 2;
                },
                None => {
                    return None;
                },
            }
        } else if bounded && (same(t, "-erroraction") || same(t, "-ea")) {
            if last {
                assert(content_scan(view, at + 2, options.deep_view(), bounded) == Some(
                    options.deep_view(),
                ));
                return Some(options);
            }
            index += 2;
        } else if is_path_colon_option(t) {
            options.path = colon_value(tokens[index].as_str());
            index += 1;
        } else if starts_with_char(t, '-') {
            return None;
        } else {
            push_item(&mut options.positional, tokens[index].clone());
            index += 1;
        }
    }
    Some(options)
}

impl ContentOptions {
    fn only_path(self) -> (r: Option<String>)
        ensures
            r.deep_view() == content_path(self.deep_view()),
    {
        if self.path.is_none() && self.positional.len() == 1 {
            assert(self.positional.deep_view()[0] == self.positional[0]@);
            Some(self.positional[0].clone())
        } else if self.positional.len() > 0 {
            None
        } else {
            self.path
        }
    }
}

/// The path of a whole reading, and whether it is raw.
pub fn parse_get_content_inspect_options(tokens: &Vec<String>) -> (r: Option<(String, bool)>)
    ensures
        r.deep_view() == inspect_options(tokens.deep_view()),
{
    match scan_content(tokens, false) {
        Some(options) => {
            let raw = options.raw;
            match options.only_path() {
                Some(path) => Some((path, raw)),
                None => None,
            }
        },
        None => None,
    }
}

/// The path of a bounded reading, which end is read, and how many lines.
pub fn parse_get_content_bounds(tokens: &Vec<String>) -> (r: Option<(String, ReadWindow, usize)>)
    ensures
        match r {
            Some((path, window, count)) => bounded_options(tokens.deep_view()) == Some(
                (path@, window, count),
            ),
            None => bounded_options(tokens.deep_view()) is None,
        },
{
    match scan_content(tokens, true) {
        Some(options) => {
            let head = options.head;
            let tail = options.tail;
            match (options.only_path(), head, tail) {
                (Some(path), Some(count), None) => Some((path, ReadWindow::Head, count)),
                (Some(path), None, Some(count)) => Some((path, ReadWindow::Tail, count)),
                _ => None,
            }
        },
        None => None,
    }
}

/// A window of lines: how many are skipped and how many are taken. Nothing
/// but the two options may stand, each with a number.
pub open spec fn window_scan(
    tokens: Seq<Seq<char>>,
    i: int,
    skip: Option<usize>,
    first: Option<usize>,
) -> Option<(usize, usize)>
    decreases tokens_left(tokens, i),
{
    if i < 0 || i >= tokens.len() {
        match first {
            Some(first) => Some(
                (
                    match skip {
                        Some(skip) => skip,
                        None => 0,
                    },
                    first,
                ),
            ),
            None => None,
        }
    } else {
        let t = lowered(tokens[i]);
        if t == "-skip"@ {
            match number_at(tokens, i + 1) {
                Some(count) => window_scan(tokens, i + 2, Some(count), first),
                None => None,
            }
        } else if t == "-first"@ {
            match number_at(tokens, i + 1) {
                Some(count) => window_scan(tokens, i + 2, skip, Some(count)),
                None => None,
            }
        } else {
            None
        }
    }
}

/// A window of lines: how many are skipped and how many are taken.
pub fn parse_select_object_window(tokens: &Vec<String>) -> (r: Option<(usize, usize)>)
    ensures
        r == window_scan(tokens.deep_view(), 0, None, None),
{
    let ghost view = tokens.deep_view();
    let mut skip: Option<usize> = None;
    let mut first: Option<usize> = None;
    let mut index: usize = 0;
    while index < tokens.len()
        invariant
            index <= tokens.len(),
            window_scan(view, index as int, skip, first) == window_scan(view, 0, None, None),
        decreases tokens.len() - index,
    {
        assert(view[index as int] == tokens[index as int]@);
        let lower = to_lowercase(tokens[index].as_str());
        let t = lower.as_str();
        if same(t, "-skip") {
            match get_number(tokens, index + 1) {
                Some(count) => {
                    skip = Some(count);
                },
                None => {
                    return None;
                },
            }
        } else if same(t, "-first") {
            match get_number(tokens, index + 1) {
                Some(count) => {
                    first = Some(count);
                },
                None => {
                    return None;
                },
            }
        } else {
            return None;
        }
        index += 2;
    }
    match first {
        Some(first) => Some(
            (
                match skip {
                    Some(skip) => skip,
                    None => 0,
                },
                first,
            ),
        ),
        None => None,
    }
}

} // verus!
