//! Looking up what a prompt mentions: values that look like UUIDs are
//! searched for by name, and the paths found are put into a short context.
#![verifier::loop_isolation(false)]

use crate::backends::everything::{answers_of, lend, FileFinder, FindQuery, FindQueryView};
use crate::backends::grep::at_most;
use crate::case::{eq_ignore_ascii_case, same_ignoring_case};
use crate::error::BackendError;
use crate::number::{decimal, push_decimal};
use crate::split::{byte_len, utf8_len};
use crate::text::{owned, push_item, text_range, to_chars};
use vstd::prelude::*;
use vstd::string::*;
use vstd::utf8::*;

verus! {

/// At most so many values are looked up.
pub const MAX_UUIDS: usize = 5;

/// So many paths are shown for a single value.
pub const SINGLE_UUID_PATH_LIMIT: usize = 5;

/// So many paths are shown for each of several values.
pub const MULTI_UUID_PATH_LIMIT: usize = 3;

/// So many paths are asked for.
pub const BACKEND_QUERY_LIMIT: usize = 20;

/// A context has at most so many bytes.
pub const MAX_CONTEXT_BYTES: usize = 8192;

/// How many matches there are.
#[derive(Debug, Clone, Copy, PartialEq, Eq, Structural)]
pub enum ReferenceTotal {
    Exact(usize),
    AtLeast(usize),
}

impl ReferenceTotal {
    /// The number, with a plus sign where there may be more.
    pub open spec fn text(self) -> Seq<char> {
        match self {
            ReferenceTotal::Exact(value) => decimal(value as nat),
            ReferenceTotal::AtLeast(value) => decimal(value as nat) + "+"@,
        }
    }

    /// The number, with a plus sign where there may be more.
    pub fn render(&self) -> (r: String)
        ensures
            r@ == self.text(),
    {
        let mut out = String::new();
        assert(Seq::<char>::empty() + self.text() =~= self.text());
        self.append_to(&mut out);
        out
    }

    fn append_to(&self, out: &mut String)
        ensures
            final(out)@ == old(out)@ + self.text(),
    {
        let ghost before = out@;
        match self {
            ReferenceTotal::Exact(value) => {
                push_decimal(out, *value as u128);
            },
            ReferenceTotal::AtLeast(value) => {
                push_decimal(out, *value as u128);
                out.append("+");
            },
        }
        assert(out@ =~= before + self.text());
    }
}

/// The paths found for one value.
#[derive(Debug, Clone, PartialEq, Eq)]
pub struct ReferenceGroup {
    pub kind: String,
    pub key: String,
    pub items: Vec<String>,
    pub total: ReferenceTotal,
    pub debug_lines: Vec<String>,
}

/// The contents of the paths found for one value.
#[verifier::ext_equal]
pub ghost struct GroupView {
    pub kind: Seq<char>,
    pub key: Seq<char>,
    pub items: Seq<Seq<char>>,
    pub total: ReferenceTotal,
    pub debug_lines: Seq<Seq<char>>,
}

impl DeepView for ReferenceGroup {
    type V = GroupView;

    open spec fn deep_view(&self) -> GroupView {
        GroupView {
            kind: self.kind@,
            key: self.key@,
            items: self.items.deep_view(),
            total: self.total,
            debug_lines: self.debug_lines.deep_view(),
        }
    }
}

/// What was found for a prompt.
#[derive(Debug, Clone, PartialEq, Eq)]
pub struct PromptReferences {
    pub groups: Vec<ReferenceGroup>,
    pub debug_lines: Vec<String>,
}

/// The contents of what was found for a prompt.
#[verifier::ext_equal]
pub ghost struct ReferencesView {
    pub groups: Seq<GroupView>,
    pub debug_lines: Seq<Seq<char>>,
}

impl DeepView for PromptReferences {
    type V = ReferencesView;

    open spec fn deep_view(&self) -> ReferencesView {
        ReferencesView {
            groups: self.groups.deep_view(),
            debug_lines: self.debug_lines.deep_view(),
        }
    }
}

/// Something that finds references for a prompt.
pub trait PromptEnricher {
    /// Whether the enricher may give a name as its own. One that does not say
    /// so may give any.
    open spec fn may_be_named(&self, name: Seq<char>) -> bool {
        true
    }

    /// Whether the enricher may give a result for a prompt, with a finder that
    /// gives the given answers. One that does not say so may give anything.
    open spec fn may_find(
        &self,
        prompt: Seq<char>,
        answers: spec_fn(FindQueryView, Result<Vec<String>, BackendError>) -> bool,
        r: Result<Option<PromptReferences>, BackendError>,
    ) -> bool {
        true
    }

    fn name(&self) -> (r: &'static str)
        ensures
            self.may_be_named(r@),
    ;

    fn enrich(&self, prompt: &str, finder: &dyn FileFinder) -> (r: Result<
        Option<PromptReferences>,
        BackendError,
    >)
        ensures
            self.may_find(prompt@, answers_of(finder), r),
    ;
}

// Detection.

/// Whether `c` is a hexadecimal digit.
pub open spec fn hex_digit(c: char) -> bool {
    ('0' <= c && c <= '9') || ('a' <= c && c <= 'f') || ('A' <= c && c <= 'F')
}

/// Whether position `k` of a value like a UUID holds a hyphen.
pub open spec fn hyphen_place(k: int) -> bool {
    k == 8 || k == 13 || k == 18 || k == 23
}

/// Whether a value like a UUID stands at position `i`: five groups of
/// hexadecimal digits, of eight, four, four, four and twelve, with hyphens
/// between them.
pub open spec fn uuid_at(s: Seq<char>, i: int) -> bool {
    &&& 0 <= i
    &&& i + 36 <= s.len()
    &&& forall|k: int|
        0 <= k < 36 ==> if hyphen_place(k) {
            #[trigger] s[i + k] == '-'
        } else {
            hex_digit(s[i + k])
        }
}

/// Whether `c` continues a value like a UUID.
pub open spec fn continues(c: char) -> bool {
    hex_digit(c) || c == '-'
}

/// Whether the value at position `i` is part of a longer run.
pub open spec fn continued(s: Seq<char>, i: int) -> bool {
    (i > 0 && continues(s[i - 1])) || (i + 36 < s.len() && continues(s[i + 36]))
}

/// Whether a value is among those found, up to case.
pub open spec fn already_found(values: Seq<Seq<char>>, value: Seq<char>) -> bool {
    exists|j: int| 0 <= j < values.len() && same_ignoring_case(#[trigger] values[j], value)
}

/// The values like UUIDs from position `i` on, on top of those found: each
/// once up to case, none that is part of a longer run, and no more than are
/// looked up; and whether there was one more.
pub open spec fn detect_from(s: Seq<char>, i: int, values: Seq<Seq<char>>) -> (Seq<Seq<char>>, bool)
    decreases s.len() - i,
{
    if i < 0 || i + 36 > s.len() {
        (values, false)
    } else if !uuid_at(s, i) {
        detect_from(s, i + 1, values)
    } else {
        let value = s.subrange(i, i + 36);
        if continued(s, i) || already_found(values, value) {
            detect_from(s, i + 36, values)
        } else if values.len() >= MAX_UUIDS {
            (values, true)
        } else {
            detect_from(s, i + 36, values.push(value))
        }
    }
}

/// The values like UUIDs in a prompt, and whether there were too many.
pub open spec fn detected(prompt: Seq<char>) -> (Seq<Seq<char>>, bool) {
    detect_from(prompt, 0, Seq::empty())
}

/// The values like UUIDs in a prompt.
#[derive(Debug, Clone, PartialEq, Eq)]
pub struct UuidDetection {
    pub values: Vec<String>,
    pub truncated: bool,
}

fn is_hex(c: char) -> (r: bool)
    ensures
        r == hex_digit(c),
{
    ('0' <= c && c <= '9') || ('a' <= c && c <= 'f') || ('A' <= c && c <= 'F')
}

fn is_uuid_at(chars: &Vec<char>, i: usize) -> (r: bool)
    requires
        i + 36 <= chars.len(),
    ensures
        r == uuid_at(chars@, i as int),
{
    let mut k: usize = 0;
    while k < 36
        invariant
            k <= 36,
            i + 36 <= chars.len(),
            forall|j: int|
                0 <= j < k ==> if hyphen_place(j) {
                    #[trigger] chars@[i + j] == '-'
                } else {
                    hex_digit(chars@[i + j])
                },
        decreases 36 - k,
    {
        let c = chars[i + k];
        let hyphen = k == 8 || k == 13 || k == 18 || k == 23;
        if (hyphen && c != '-') || (!hyphen && !is_hex(c)) {
            assert(chars@[i + k] == c);
            return false;
        }
        k += 1;
    }
    true
}

fn is_continued(chars: &Vec<char>, i: usize) -> (r: bool)
    requires
        i + 36 <= chars.len(),
    ensures
        r == continued(chars@, i as int),
{
    (i > 0 && (is_hex(chars[i - 1]) || chars[i - 1] == '-')) || (i + 36 < chars.len() && (is_hex(
        chars[i + 36],
    ) || chars[i + 36] == '-'))
}

fn was_found(values: &Vec<String>, value: &str) -> (r: bool)
    ensures
        r == already_found(values.deep_view(), value@),
{
    let ghost view = values.deep_view();
    let mut i: usize = 0;
    while i < values.len()
        invariant
            i <= values.len(),
            forall|j: int| 0 <= j < i ==> !same_ignoring_case(#[trigger] view[j], value@),
        decreases values.len() - i,
    {
        assert(view[i as int] == values[i as int]@);
        if eq_ignore_ascii_case(values[i].as_str(), value) {
            assert(same_ignoring_case(view[i as int], value@));
            return true;
        }
        i += 1;
    }
    false
}

/// The values like UUIDs in a prompt.
pub fn detect_uuid_like_values(prompt: &str) -> (r: UuidDetection)
    ensures
        (r.values.deep_view(), r.truncated) == detected(prompt@),
        r.values.len() <= MAX_UUIDS,
{
    let chars = to_chars(prompt);
    let mut values: Vec<String> = Vec::new();
    let mut i: usize = 0;
    assert(values.deep_view() =~= Seq::<Seq<char>>::empty());
    while chars.len() - i >= 36
        invariant
            i <= chars.len(),
            values.len() <= MAX_UUIDS,
            detect_from(chars@, i as int, values.deep_view()) == detected(prompt@),
        decreases chars.len() - i,
    {
        if !is_uuid_at(&chars, i) {
            i += 1;
            continue;
        }
        let value = text_range(&chars, i, i + 36);
        if is_continued(&chars, i) || was_found(&values, value.as_str()) {
            i += 36;
            continue;
        }
        if values.len() >= MAX_UUIDS {
            return UuidDetection { values, truncated: true };
        }
        push_item(&mut values, value);
        i += 36;
    }
    UuidDetection { values, truncated: false }
}

proof fn lemma_detect(s: Seq<char>, i: int, values: Seq<Seq<char>>)
    requires
        0 <= i,
        values.len() <= MAX_UUIDS,
        forall|a: int, b: int|
            0 <= a < b < values.len() ==> !same_ignoring_case(
                #[trigger] values[a],
                #[trigger] values[b],
            ),
        forall|a: int| 0 <= a < values.len() ==> (#[trigger] values[a]).len() == 36,
    ensures
        ({
            let found = detect_from(s, i, values).0;
            &&& found.len() <= MAX_UUIDS
            &&& forall|a: int, b: int|
                0 <= a < b < found.len() ==> !same_ignoring_case(
                    #[trigger] found[a],
                    #[trigger] found[b],
                )
            &&& forall|a: int| 0 <= a < found.len() ==> (#[trigger] found[a]).len() == 36
        }),
    decreases s.len() - i,
{
    if i + 36 <= s.len() {
        if !uuid_at(s, i) {
            lemma_detect(s, i + 1, values);
        } else {
            let value = s.subrange(i, i + 36);
            if continued(s, i) || already_found(values, value) {
                lemma_detect(s, i + 36, values);
            } else if values.len() < MAX_UUIDS {
                let more = values.push(value);
                assert forall|a: int, b: int| 0 <= a < b < more.len() implies !same_ignoring_case(
                    #[trigger] more[a],
                    #[trigger] more[b],
                ) by {
                    if b == values.len() {
                        assert(more[a] == values[a]);
                    }
                }
                lemma_detect(s, i + 36, more);
            }
        }
    }
}

/// A prompt gives at most as many values as are looked up, and no two of
/// them are the same up to case.
pub proof fn law_detected_values(prompt: Seq<char>)
    ensures
        detected(prompt).0.len() <= MAX_UUIDS,
        forall|a: int, b: int|
            0 <= a < b < detected(prompt).0.len() ==> !same_ignoring_case(
                #[trigger] detected(prompt).0[a],
                #[trigger] detected(prompt).0[b],
            ),
        forall|a: int| 0 <= a < detected(prompt).0.len() ==> (#[trigger] detected(
            prompt,
        ).0[a]).len() == 36,
{
    lemma_detect(prompt, 0, Seq::empty());
}

// Lookup.

/// The search for a value.
pub open spec fn value_query(value: Seq<char>) -> FindQueryView {
    FindQueryView { root: None, pattern: value, files_only: true, limit: BACKEND_QUERY_LIMIT }
}

/// The search for a value.
pub fn uuid_query(value: &str) -> (r: FindQuery)
    ensures
        r.deep_view() == value_query(value@),
{
    FindQuery { root: None, pattern: owned(value), files_only: true, limit: BACKEND_QUERY_LIMIT }
}

/// How many paths are shown for each of `count` values.
pub open spec fn path_limit(count: nat) -> usize {
    if count == 1 {
        SINGLE_UUID_PATH_LIMIT
    } else {
        MULTI_UUID_PATH_LIMIT
    }
}

/// How many matches a search found, as far as it tells.
pub open spec fn total_of(count: nat) -> ReferenceTotal {
    if count >= BACKEND_QUERY_LIMIT {
        ReferenceTotal::AtLeast(BACKEND_QUERY_LIMIT)
    } else {
        ReferenceTotal::Exact(count as usize)
    }
}

/// What is noted of a group for troubleshooting.
pub open spec fn group_notes(value: Seq<char>, count: nat, limit: nat) -> Seq<Seq<char>> {
    let shown = if count < limit {
        count
    } else {
        limit
    };
    let first = "uuid="@ + value + " matches="@ + total_of(count).text() + " showing="@ + decimal(
        shown,
    );
    if count > limit {
        seq![first, "omitted_at_least="@ + decimal((count - limit) as nat)]
    } else {
        seq![first]
    }
}

/// The group for a value and the paths found for it.
pub open spec fn group_for(value: Seq<char>, paths: Seq<Seq<char>>, limit: usize) -> GroupView {
    GroupView {
        kind: "uuid"@,
        key: value,
        items: at_most(paths, limit as nat),
        total: total_of(paths.len()),
        debug_lines: group_notes(value, paths.len(), limit as nat),
    }
}

/// The groups for the first `n` values and the paths found for each; values
/// without paths have none.
pub open spec fn groups_for(
    values: Seq<Seq<char>>,
    found: Seq<Seq<Seq<char>>>,
    limit: usize,
    n: nat,
) -> Seq<GroupView>
    decreases n,
{
    if n == 0 {
        Seq::empty()
    } else {
        let before = groups_for(values, found, limit, (n - 1) as nat);
        if found[n - 1].len() == 0 {
            before
        } else {
            before.push(group_for(values[n - 1], found[n - 1], limit))
        }
    }
}

/// What is noted of a lookup for troubleshooting.
pub open spec fn lookup_notes(truncated: bool) -> Seq<Seq<char>> {
    let notes = seq!["search=Everything path/name only"@, "files_read=false"@];
    if truncated {
        notes.push(
            "uuid_limit="@ + decimal(MAX_UUIDS as nat)
                + " reached; later UUID-like values were skipped"@,
        )
    } else {
        notes
    }
}

/// What was found for the values of a prompt, given the paths found for each;
/// nothing where no paths were.
pub open spec fn references_from(
    values: Seq<Seq<char>>,
    truncated: bool,
    found: Seq<Seq<Seq<char>>>,
) -> Option<ReferencesView> {
    let groups = groups_for(values, found, path_limit(values.len()), values.len());
    if groups.len() == 0 {
        None
    } else {
        Some(ReferencesView { groups, debug_lines: lookup_notes(truncated) })
    }
}

fn make_notes(value: &str, count: usize, limit: usize) -> (r: Vec<String>)
    ensures
        r.deep_view() == group_notes(value@, count as nat, limit as nat),
{
    let shown: usize = if count < limit {
        count
    } else {
        limit
    };
    let total = total_for(count);
    let mut line = owned("uuid=");
    line.append(value);
    line.append(" matches=");
    total.append_to(&mut line);
    line.append(" showing=");
    push_decimal(&mut line, shown as u128);
    let mut notes: Vec<String> = Vec::new();
    push_item(&mut notes, line);
    if count > limit {
        let mut line = owned("omitted_at_least=");
        push_decimal(&mut line, (count - limit) as u128);
        push_item(&mut notes, line);
    }
    assert(notes.deep_view() =~= group_notes(value@, count as nat, limit as nat));
    notes
}

fn total_for(count: usize) -> (r: ReferenceTotal)
    ensures
        r == total_of(count as nat),
{
    if count >= BACKEND_QUERY_LIMIT {
        ReferenceTotal::AtLeast(BACKEND_QUERY_LIMIT)
    } else {
        ReferenceTotal::Exact(count)
    }
}

/// The group for a value and the paths found for it.
pub fn make_group(value: &str, paths: &Vec<String>, limit: usize) -> (r: ReferenceGroup)
    ensures
        r.deep_view() == group_for(value@, paths.deep_view(), limit),
{
    let ghost view = paths.deep_view();
    let shown: usize = if paths.len() > limit {
        limit
    } else {
        paths.len()
    };
    let mut items: Vec<String> = Vec::new();
    let mut i: usize = 0;
    assert(items.deep_view() =~= view.take(0));
    while i < shown
        invariant
            i <= shown <= paths.len(),
            items.deep_view() == view.take(i as int),
        decreases shown - i,
    {
        push_item(&mut items, paths[i].clone());
        i += 1;
        assert(items.deep_view() =~= view.take(i as int));
    }
    assert(paths.len() <= limit ==> view.take(i as int) =~= view);
    ReferenceGroup {
        kind: owned("uuid"),
        key: owned(value),
        items,
        total: total_for(paths.len()),
        debug_lines: make_notes(value, paths.len(), limit),
    }
}

fn make_lookup_notes(truncated: bool) -> (r: Vec<String>)
    ensures
        r.deep_view() == lookup_notes(truncated),
{
    let mut notes: Vec<String> = Vec::new();
    push_item(&mut notes, owned("search=Everything path/name only"));
    push_item(&mut notes, owned("files_read=false"));
    if truncated {
        let mut line = owned("uuid_limit=");
        push_decimal(&mut line, MAX_UUIDS as u128);
        line.append(" reached; later UUID-like values were skipped");
        push_item(&mut notes, line);
    }
    assert(notes.deep_view() =~= lookup_notes(truncated));
    notes
}

/// What was found for the values of a prompt, given the paths found for each.
pub fn collect_references(detection: &UuidDetection, found: &Vec<Vec<String>>) -> (r: Option<
    PromptReferences,
>)
    requires
        found.len() == detection.values.len(),
    ensures
        r.deep_view() == references_from(
            detection.values.deep_view(),
            detection.truncated,
            found.deep_view(),
        ),
{
    let values = &detection.values;
    let ghost value_view = values.deep_view();
    let ghost found_view = found.deep_view();
    let limit: usize = if values.len() == 1 {
        SINGLE_UUID_PATH_LIMIT
    } else {
        MULTI_UUID_PATH_LIMIT
    };
    let mut groups: Vec<ReferenceGroup> = Vec::new();
    let mut i: usize = 0;
    assert(groups.deep_view() =~= Seq::<GroupView>::empty());
    while i < values.len()
        invariant
            i <= values.len(),
            groups.deep_view() == groups_for(value_view, found_view, limit, i as nat),
        decreases values.len() - i,
    {
        assert(value_view[i as int] == values[i as int]@);
        assert(found_view[i as int] == found[i as int].deep_view());
        if found[i].len() > 0 {
            push_item(&mut groups, make_group(values[i].as_str(), &found[i], limit));
        }
        i += 1;
    }
    if groups.len() == 0 {
        None
    } else {
        Some(PromptReferences { groups, debug_lines: make_lookup_notes(detection.truncated) })
    }
}

/// The enricher that looks up values like UUIDs by path and name.
#[derive(Debug)]
pub struct UuidPathLookupDetector;

/// Whether the finder may give each list of paths for the value at its place.
pub open spec fn paths_given(
    answers: spec_fn(FindQueryView, Result<Vec<String>, BackendError>) -> bool,
    values: Seq<Seq<char>>,
    found: Seq<Vec<String>>,
) -> bool {
    forall|i: int|
        0 <= i < found.len() ==> answers(
            value_query(values[i]),
            Ok::<Vec<String>, BackendError>(#[trigger] found[i]),
        )
}

/// Whether the finder may give the lists of paths for the first values and
/// fail on the next one.
pub open spec fn lookup_fails(
    answers: spec_fn(FindQueryView, Result<Vec<String>, BackendError>) -> bool,
    values: Seq<Seq<char>>,
    found: Seq<Vec<String>>,
    error: BackendError,
) -> bool {
    &&& paths_given(answers, values, found)
    &&& found.len() < values.len()
    &&& answers(value_query(values[found.len() as int]), Err(error))
}

/// What a lookup may give: what follows from the paths that the finder gives
/// for each value, or the error that it gives for one of them.
pub open spec fn lookup_result(
    prompt: Seq<char>,
    answers: spec_fn(FindQueryView, Result<Vec<String>, BackendError>) -> bool,
    r: Result<Option<PromptReferences>, BackendError>,
) -> bool {
    let (values, truncated) = detected(prompt);
    match r {
        Ok(references) => exists|found: Vec<Vec<String>>| #[trigger]
            paths_given(answers, values, found@) && found.len() == values.len()
                && references.deep_view() == references_from(values, truncated, found.deep_view()),
        Err(error) => exists|found: Vec<Vec<String>>| #[trigger]
            lookup_fails(answers, values, found@, error),
    }
}

impl PromptEnricher for UuidPathLookupDetector {
    open spec fn may_be_named(&self, name: Seq<char>) -> bool {
        name == "uuid_path_lookup"@
    }

    open spec fn may_find(
        &self,
        prompt: Seq<char>,
        answers: spec_fn(FindQueryView, Result<Vec<String>, BackendError>) -> bool,
        r: Result<Option<PromptReferences>, BackendError>,
    ) -> bool {
        lookup_result(prompt, answers, r)
    }

    fn name(&self) -> (r: &'static str)
        ensures
            r@ == "uuid_path_lookup"@,
    {
        "uuid_path_lookup"
    }

    fn enrich(&self, prompt: &str, finder: &dyn FileFinder) -> (r: Result<
        Option<PromptReferences>,
        BackendError,
    >)
        ensures
            lookup_result(prompt@, answers_of(finder), r),
    {
        let detection = detect_uuid_like_values(prompt);
        let values = &detection.values;
        let ghost view = values.deep_view();
        let ghost answers = answers_of(finder);
        let mut found: Vec<Vec<String>> = Vec::new();
        let mut i: usize = 0;
        while i < values.len()
            invariant
                i <= values.len(),
                found.len() == i,
                paths_given(answers, view, found@),
            decreases values.len() - i,
        {
            assert(view[i as int] == values[i as int]@);
            match finder.find(&uuid_query(values[i].as_str())) {
                Ok(paths) => {
                    found.push(paths);
                },
                Err(error) => {
                    let ghost why = error;
                    assert(lookup_fails(answers, detected(prompt@).0, found@, why));
                    let failed: Result<Option<PromptReferences>, BackendError> = Err(error);
                    assert(failed->Err_0 == why);
                    return failed;
                },
            }
            i += 1;
        }
        let references = collect_references(&detection, &found);
        assert(found.deep_view().len() == view.len());
        assert(paths_given(answers, view, found@));
        Ok(references)
    }
}

// Rendering.

/// The context so far, and whether a line did not fit.
pub ghost struct Capped {
    pub text: Seq<char>,
    pub truncated: bool,
}

/// Whether a line fits behind a context.
pub open spec fn line_fits(text: Seq<char>, line: Seq<char>) -> bool {
    utf8_len(text) + utf8_len(line) + if text.len() > 0 {
        1int
    } else {
        0int
    } <= MAX_CONTEXT_BYTES
}

/// A context with one more line.
pub open spec fn with_line(text: Seq<char>, line: Seq<char>) -> Seq<char> {
    if text.len() > 0 {
        text.push('\n') + line
    } else {
        line
    }
}

/// A context with one more line, if it fits and all before it did.
pub open spec fn capped_line(capped: Capped, line: Seq<char>) -> Capped {
    if capped.truncated {
        capped
    } else if line_fits(capped.text, line) {
        Capped { text: with_line(capped.text, line), truncated: false }
    } else {
        Capped { text: capped.text, truncated: true }
    }
}

/// A context with as many of the lines as fit.
pub open spec fn capped_lines(lines: Seq<Seq<char>>) -> Capped
    decreases lines.len(),
{
    if lines.len() == 0 {
        Capped { text: Seq::empty(), truncated: false }
    } else {
        capped_line(capped_lines(lines.drop_last()), lines.last())
    }
}

/// The line that heads a group.
pub open spec fn group_heading(group: GroupView) -> Seq<char> {
    group.kind + ":"@ + group.key + " ["@ + decimal(group.items.len()) + "/"@ + group.total.text()
        + "]"@
}

/// The lines of a group.
pub open spec fn group_lines(group: GroupView, debug: bool) -> Seq<Seq<char>> {
    seq![group_heading(group)] + group.items + if debug {
        group.debug_lines
    } else {
        Seq::empty()
    }
}

/// The lines of the first `n` groups.
pub open spec fn all_group_lines(groups: Seq<GroupView>, n: nat, debug: bool) -> Seq<Seq<char>>
    decreases n,
{
    if n == 0 {
        Seq::empty()
    } else {
        all_group_lines(groups, (n - 1) as nat, debug) + group_lines(groups[n - 1], debug)
    }
}

/// The lines of what one enricher found.
pub open spec fn reference_lines(name: Seq<char>, references: ReferencesView, debug: bool) -> Seq<
    Seq<char>,
> {
    let head = if debug {
        seq![Seq::<char>::empty(), "detector="@ + name] + references.debug_lines
    } else {
        Seq::empty()
    };
    head + all_group_lines(references.groups, references.groups.len(), debug)
}

/// The lines of what the first `n` enrichers found.
pub open spec fn all_reference_lines(
    references: Seq<(Seq<char>, ReferencesView)>,
    n: nat,
    debug: bool,
) -> Seq<Seq<char>>
    decreases n,
{
    if n == 0 {
        Seq::empty()
    } else {
        all_reference_lines(references, (n - 1) as nat, debug) + reference_lines(
            references[n - 1].0,
            references[n - 1].1,
            debug,
        )
    }
}

/// The lines of a context.
pub open spec fn context_lines(references: Seq<(Seq<char>, ReferencesView)>, debug: bool) -> Seq<
    Seq<char>,
> {
    let head = if debug {
        seq!["slowcatch_refs v1 paths_only"@, "debug=1"@]
    } else {
        seq!["slowcatch_refs v1 paths_only"@]
    };
    head + all_reference_lines(references, references.len(), debug)
}

/// The note that lines are left out.
pub open spec fn cap_note() -> Seq<char> {
    "truncated=context byte cap reached"@
}

/// The context for what the enrichers found: as many lines as fit and, where
/// some are left out, a note if it fits.
pub open spec fn context_of(references: Seq<(Seq<char>, ReferencesView)>, debug: bool) -> Option<
    Seq<char>,
> {
    if references.len() == 0 {
        None
    } else {
        let capped = capped_lines(context_lines(references, debug));
        if capped.truncated && line_fits(capped.text, cap_note()) {
            Some(with_line(capped.text, cap_note()))
        } else {
            Some(capped.text)
        }
    }
}

fn fits(text: &str, line: &str) -> (r: bool)
    ensures
        r == line_fits(text@, line@),
{
    let used = byte_len(text);
    let more = byte_len(line);
    let gap: usize = if text.unicode_len() > 0 {
        1
    } else {
        0
    };
    used <= MAX_CONTEXT_BYTES && more <= MAX_CONTEXT_BYTES && used + more + gap
        <= MAX_CONTEXT_BYTES
}

/// Appends a line to a context, if it fits.
pub fn append_line_if_fits(output: &mut String, line: &str) -> (r: bool)
    ensures
        r == line_fits(old(output)@, line@),
        final(output)@ == if r {
            with_line(old(output)@, line@)
        } else {
            old(output)@
        },
{
    if !fits(output.as_str(), line) {
        return false;
    }
    let ghost before = output@;
    if output.as_str().unicode_len() > 0 {
        output.push('\n');
    }
    output.append(line);
    assert(before.len() == 0 ==> before + line@ =~= line@);
    true
}

/// Appends a line to a context, if it fits and all before it did.
pub fn push_line_capped(output: &mut String, line: &str, truncated: &mut bool)
    ensures
        (Capped { text: final(output)@, truncated: *final(truncated) }) == capped_line(
            Capped { text: old(output)@, truncated: *old(truncated) },
            line@,
        ),
{
    if *truncated {
        return;
    }
    if !append_line_if_fits(output, line) {
        *truncated = true;
    }
}

proof fn lemma_capped_push(lines: Seq<Seq<char>>, line: Seq<char>)
    ensures
        capped_lines(lines.push(line)) == capped_line(capped_lines(lines), line),
{
    assert(lines.push(line).drop_last() =~= lines);
}

fn push_lines_capped(
    output: &mut String,
    truncated: &mut bool,
    list: &Vec<String>,
    written: Ghost<Seq<Seq<char>>>,
)
    requires
        (Capped { text: old(output)@, truncated: *old(truncated) }) == capped_lines(written@),
    ensures
        (Capped { text: final(output)@, truncated: *final(truncated) }) == capped_lines(
            written@ + list.deep_view(),
        ),
{
    let ghost view = list.deep_view();
    let mut i: usize = 0;
    assert(written@ + view.take(0) =~= written@);
    while i < list.len()
        invariant
            i <= list.len(),
            (Capped { text: output@, truncated: *truncated }) == capped_lines(
                written@ + view.take(i as int),
            ),
        decreases list.len() - i,
    {
        proof {
            lemma_capped_push(written@ + view.take(i as int), view[i as int]);
            assert((written@ + view.take(i as int)).push(view[i as int]) =~= written@ + view.take(
                i + 1,
            ));
            assert(view[i as int] == list[i as int]@);
        }
        push_line_capped(output, list[i].as_str(), truncated);
        i += 1;
    }
    assert(view.take(i as int) =~= view);
}

fn heading_for(group: &ReferenceGroup) -> (r: String)
    ensures
        r@ == group_heading(group.deep_view()),
{
    let mut line = group.kind.clone();
    line.append(":");
    line.append(group.key.as_str());
    line.append(" [");
    push_decimal(&mut line, group.items.len() as u128);
    line.append("/");
    group.total.append_to(&mut line);
    line.append("]");
    line
}

fn push_group(
    output: &mut String,
    truncated: &mut bool,
    group: &ReferenceGroup,
    debug: bool,
    written: Ghost<Seq<Seq<char>>>,
)
    requires
        (Capped { text: old(output)@, truncated: *old(truncated) }) == capped_lines(written@),
    ensures
        (Capped { text: final(output)@, truncated: *final(truncated) }) == capped_lines(
            written@ + group_lines(group.deep_view(), debug),
        ),
{
    let ghost view = group.deep_view();
    let heading = heading_for(group);
    proof {
        lemma_capped_push(written@, heading@);
    }
    push_line_capped(output, heading.as_str(), truncated);
    let ghost first = written@.push(heading@);
    push_lines_capped(output, truncated, &group.items, Ghost(first));
    let ghost second = first + view.items;
    if debug {
        push_lines_capped(output, truncated, &group.debug_lines, Ghost(second));
        assert(second + view.debug_lines =~= written@ + group_lines(view, debug));
    } else {
        assert(second =~= written@ + group_lines(view, debug));
    }
}

fn push_reference(
    output: &mut String,
    truncated: &mut bool,
    name: &str,
    references: &PromptReferences,
    debug: bool,
    written: Ghost<Seq<Seq<char>>>,
)
    requires
        (Capped { text: old(output)@, truncated: *old(truncated) }) == capped_lines(written@),
    ensures
        (Capped { text: final(output)@, truncated: *final(truncated) }) == capped_lines(
            written@ + reference_lines(name@, references.deep_view(), debug),
        ),
{
    let ghost view = references.deep_view();
    let ghost mut now = written@;
    if debug {
        let mut detector = owned("detector=");
        detector.append(name);
        proof {
            reveal_strlit("");
            assert(""@ =~= Seq::<char>::empty());
            lemma_capped_push(now, Seq::empty());
            lemma_capped_push(now.push(Seq::empty()), detector@);
        }
        push_line_capped(output, "", truncated);
        push_line_capped(output, detector.as_str(), truncated);
        proof {
            now = written@.push(Seq::empty()).push(detector@);
        }
        push_lines_capped(output, truncated, &references.debug_lines, Ghost(now));
        proof {
            now = now + view.debug_lines;
        }
    }
    let ghost start = now;
    let mut i: usize = 0;
    assert(start + all_group_lines(view.groups, 0, debug) =~= start);
    while i < references.groups.len()
        invariant
            i <= references.groups.len(),
            now == start + all_group_lines(view.groups, i as nat, debug),
            (Capped { text: output@, truncated: *truncated }) == capped_lines(now),
        decreases references.groups.len() - i,
    {
        assert(view.groups[i as int] == references.groups[i as int].deep_view());
        push_group(output, truncated, &references.groups[i], debug, Ghost(now));
        proof {
            now = now + group_lines(view.groups[i as int], debug);
        }
        i += 1;
        assert(now =~= start + all_group_lines(view.groups, i as nat, debug));
    }
    assert(now =~= written@ + reference_lines(name@, view, debug));
}

/// The context for what the enrichers found.
pub fn render_references_with_debug(
    references: &[(&'static str, PromptReferences)],
    debug_enabled: bool,
) -> (r: Option<String>)
    ensures
        r.deep_view() == context_of(references.deep_view(), debug_enabled),
{
    if references.len() == 0 {
        return None;
    }
    let ghost view = references.deep_view();
    let mut output = String::new();
    let mut truncated = false;
    let ghost mut now = seq!["slowcatch_refs v1 paths_only"@];
    proof {
        lemma_capped_push(Seq::empty(), "slowcatch_refs v1 paths_only"@);
        assert(Seq::<Seq<char>>::empty().push("slowcatch_refs v1 paths_only"@) =~= now);
    }
    push_line_capped(&mut output, "slowcatch_refs v1 paths_only", &mut truncated);
    if debug_enabled {
        proof {
            lemma_capped_push(now, "debug=1"@);
            now = now.push("debug=1"@);
        }
        push_line_capped(&mut output, "debug=1", &mut truncated);
    }
    let ghost start = now;
    let mut i: usize = 0;
    assert(start + all_reference_lines(view, 0, debug_enabled) =~= start);
    while i < references.len()
        invariant
            i <= references.len(),
            now == start + all_reference_lines(view, i as nat, debug_enabled),
            (Capped { text: output@, truncated }) == capped_lines(now),
        decreases references.len() - i,
    {
        let (name, found) = &references[i];
        assert(view[i as int] == (name@, found.deep_view()));
        push_reference(&mut output, &mut truncated, name, found, debug_enabled, Ghost(now));
        proof {
            now = now + reference_lines(view[i as int].0, view[i as int].1, debug_enabled);
        }
        i += 1;
        assert(now =~= start + all_reference_lines(view, i as nat, debug_enabled));
    }
    assert(now =~= context_lines(view, debug_enabled));
    if truncated {
        let _ = append_line_if_fits(&mut output, "truncated=context byte cap reached");
    }
    Some(output)
}

/// What the enrichers found, each under its name, or why one failed.
pub open spec fn results_view(
    results: Seq<(&'static str, Result<Option<PromptReferences>, BackendError>)>,
) -> Seq<(Seq<char>, Result<Option<ReferencesView>, Seq<char>>)> {
    results.map_values(
        |result: (&'static str, Result<Option<PromptReferences>, BackendError>)|
            (
                result.0@,
                match result.1 {
                    Ok(found) => Ok(found.deep_view()),
                    Err(error) => Err(error.deep_view()),
                },
            ),
    )
}

/// What was found, in order, without the enrichers that failed or found
/// nothing.
pub open spec fn selected(results: Seq<(Seq<char>, Result<Option<ReferencesView>, Seq<char>>)>) -> Seq<
    (Seq<char>, ReferencesView),
>
    decreases results.len(),
{
    if results.len() == 0 {
        Seq::empty()
    } else {
        let before = selected(results.drop_last());
        match results.last().1 {
            Ok(Some(found)) => before.push((results.last().0, found)),
            _ => before,
        }
    }
}

/// Keeps what was found, in order. An enricher that failed or found nothing
/// leaves no trace.
pub fn select_references(
    results: Vec<(&'static str, Result<Option<PromptReferences>, BackendError>)>,
) -> (r: Vec<(&'static str, PromptReferences)>)
    ensures
        r.deep_view() == selected(results_view(results@)),
{
    let ghost view = results_view(results@);
    let ghost all = results@;
    let mut results = results;
    let count: usize = results.len();
    let mut references: Vec<(&'static str, PromptReferences)> = Vec::new();
    let mut i: usize = 0;
    assert(references.deep_view() =~= selected(view.take(0)));
    assert(all.skip(0) =~= all);
    while results.len() > 0
        invariant
            i + results.len() == count,
            count == all.len(),
            results@ == all.skip(i as int),
            references.deep_view() == selected(view.take(i as int)),
        decreases results.len(),
    {
        proof {
            assert(view.take(i + 1).drop_last() =~= view.take(i as int));
            assert(view.take(i + 1).last() == view[i as int]);
            assert(results@[0] == all[i as int]);
        }
        let (name, result) = results.remove(0);
        assert(results@ =~= all.skip(i + 1));
        if let Ok(Some(found)) = result {
            let ghost before = references.deep_view();
            references.push((name, found));
            assert(references.deep_view() =~= before.push((name@, found.deep_view())));
        }
        i += 1;
    }
    assert(view.take(i as int) =~= view);
    references
}

/// The context for a prompt, from the given enrichers. One that fails or
/// finds nothing adds nothing; the others are kept.
pub fn enrich_prompt_with_enrichers(
    prompt: &str,
    finder: &dyn FileFinder,
    enrichers: &[&dyn PromptEnricher],
    debug_enabled: bool,
) -> (r: Option<String>)
    ensures
        exists|results: Seq<(&'static str, Result<Option<PromptReferences>, BackendError>)>|
            results.len() == enrichers@.len() && (forall|i: int|
                0 <= i < results.len() ==> enrichers@[i].may_be_named(
                    (#[trigger] results[i]).0@,
                ) && enrichers@[i].may_find(prompt@, answers_of(finder), results[i].1))
                && r.deep_view() == context_of(
                selected(#[trigger] results_view(results)),
                debug_enabled,
            ),
{
    let mut results: Vec<(&'static str, Result<Option<PromptReferences>, BackendError>)> =
        Vec::new();
    let lent = lend(finder);
    let ghost asked: &dyn FileFinder = &lent;
    assert(answers_of(asked) =~= answers_of(&lent));
    let mut i: usize = 0;
    while i < enrichers.len()
        invariant
            i <= enrichers.len(),
            results.len() == i,
            forall|j: int|
                0 <= j < i ==> enrichers@[j].may_be_named((#[trigger] results[j]).0@)
                    && enrichers@[j].may_find(prompt@, answers_of(finder), results[j].1),
        decreases enrichers.len() - i,
    {
        let name = enrichers[i].name();
        let result = enrichers[i].enrich(prompt, &lent);
        results.push((name, result));
        i += 1;
    }
    let ghost all = results@;
    let references = select_references(results);
    assert(references.deep_view() == selected(results_view(all)));
    render_references_with_debug(references.as_slice(), debug_enabled)
}

/// The results without those of the enrichers that failed or found nothing.
pub open spec fn answered(results: Seq<(Seq<char>, Result<Option<ReferencesView>, Seq<char>>)>) -> Seq<
    (Seq<char>, Result<Option<ReferencesView>, Seq<char>>),
>
    decreases results.len(),
{
    if results.len() == 0 {
        Seq::empty()
    } else if results.last().1 matches Ok(Some(_)) {
        answered(results.drop_last()).push(results.last())
    } else {
        answered(results.drop_last())
    }
}

/// An enricher that failed or found nothing neither hides the others nor
/// leaves a trace, and there is no context exactly where all of them did.
pub proof fn law_failures_leave_no_trace(
    results: Seq<(Seq<char>, Result<Option<ReferencesView>, Seq<char>>)>,
    debug: bool,
)
    ensures
        context_of(selected(results), debug) == context_of(selected(answered(results)), debug),
        context_of(selected(results), debug) is None <==> answered(results).len() == 0,
        selected(results).len() == answered(results).len(),
{
    lemma_answered(results);
}

proof fn lemma_answered(results: Seq<(Seq<char>, Result<Option<ReferencesView>, Seq<char>>)>)
    ensures
        selected(results) == selected(answered(results)),
        selected(results).len() == answered(results).len(),
    decreases results.len(),
{
    if results.len() > 0 {
        let before = answered(results.drop_last());
        lemma_answered(results.drop_last());
        if results.last().1 matches Ok(Some(_)) {
            let all = before.push(results.last());
            assert(all.drop_last() =~= before);
            assert(all.last() == results.last());
        }
    }
}

/// The context for the values of a prompt, given the paths found for each.
pub open spec fn enriched(
    values: Seq<Seq<char>>,
    truncated: bool,
    found: Seq<Seq<Seq<char>>>,
    debug: bool,
) -> Option<Seq<char>> {
    match references_from(values, truncated, found) {
        Some(references) => context_of(seq![("uuid_path_lookup"@, references)], debug),
        None => None,
    }
}

/// The context for a prompt: what follows from the paths that the finder
/// gives for each value. There is none where it fails on one of them.
pub fn enrich_prompt(prompt: &str, finder: &dyn FileFinder, debug_enabled: bool) -> (r: Option<
    String,
>)
    ensures
        detected(prompt@).0.len() == 0 ==> r is None,
        (exists|found: Vec<Vec<String>>| #[trigger]
            paths_given(answers_of(finder), detected(prompt@).0, found@) && found.len() == detected(
                prompt@,
            ).0.len() && r.deep_view() == enriched(
                detected(prompt@).0,
                detected(prompt@).1,
                found.deep_view(),
                debug_enabled,
            )) || (r is None && exists|found: Vec<Vec<String>>, error: BackendError| #[trigger]
            lookup_fails(answers_of(finder), detected(prompt@).0, found@, error)),
{
    let detector = UuidPathLookupDetector;
    let lent = lend(finder);
    let ghost asked: &dyn FileFinder = &lent;
    assert(answers_of(asked) =~= answers_of(&lent));
    let result = detector.enrich(prompt, &lent);
    let ghost (values, over) = detected(prompt@);
    let ghost answers = answers_of(finder);
    match result {
        Ok(Some(found)) => {
            let mut references: Vec<(&'static str, PromptReferences)> = Vec::new();
            references.push((detector.name(), found));
            let slice = references.as_slice();
            proof {
                let paths = choose|paths: Vec<Vec<String>>| #[trigger]
                    paths_given(answers, values, paths@) && paths.len() == values.len() && Some(
                        found.deep_view(),
                    ) == references_from(values, over, paths.deep_view());
                assert(slice.deep_view() =~= seq![("uuid_path_lookup"@, found.deep_view())]);
                assert(enriched(values, over, paths.deep_view(), debug_enabled) == context_of(
                    slice.deep_view(),
                    debug_enabled,
                ));
            }
            render_references_with_debug(slice, debug_enabled)
        },
        _ => None,
    }
}

/// The context for a prompt, given the paths found for each of its values.
pub fn enrich_prompt_with_paths(prompt: &str, found: &Vec<Vec<String>>, debug_enabled: bool) -> (r:
    Option<String>)
    requires
        found.len() == detected(prompt@).0.len(),
    ensures
        r.deep_view() == enriched(
            detected(prompt@).0,
            detected(prompt@).1,
            found.deep_view(),
            debug_enabled,
        ),
{
    let detection = detect_uuid_like_values(prompt);
    assert(detection.values.deep_view().len() == detection.values.len());
    match collect_references(&detection, found) {
        Some(found) => {
            let mut references: Vec<(&'static str, PromptReferences)> = Vec::new();
            references.push(("uuid_path_lookup", found));
            let slice = references.as_slice();
            assert(slice.deep_view() =~= seq![("uuid_path_lookup"@, found.deep_view())]);
            render_references_with_debug(slice, debug_enabled)
        },
        None => None,
    }
}

// The cap.

pub proof fn lemma_utf8_concat(a: Seq<char>, b: Seq<char>)
    ensures
        utf8_len(a + b) == utf8_len(a) + utf8_len(b),
    decreases a.len(),
{
    if a.len() == 0 {
        assert(a + b =~= b);
    } else {
        assert((a + b).drop_first() =~= a.drop_first() + b);
        lemma_utf8_concat(a.drop_first(), b);
    }
}

proof fn lemma_with_line_len(text: Seq<char>, line: Seq<char>)
    requires
        line_fits(text, line),
    ensures
        utf8_len(with_line(text, line)) <= MAX_CONTEXT_BYTES,
{
    if text.len() > 0 {
        assert(text.push('\n') =~= text + seq!['\n']);
        lemma_utf8_concat(text, seq!['\n']);
        lemma_utf8_concat(text.push('\n'), line);
        assert(utf8_len(seq!['\n']) == 1) by {
            reveal_with_fuel(encode_utf8, 2);
        }
    }
}

proof fn lemma_capped_len(lines: Seq<Seq<char>>)
    ensures
        utf8_len(capped_lines(lines).text) <= MAX_CONTEXT_BYTES,
    decreases lines.len(),
{
    if lines.len() == 0 {
        assert(encode_utf8(Seq::<char>::empty()).len() == 0);
    } else {
        lemma_capped_len(lines.drop_last());
        let before = capped_lines(lines.drop_last());
        if !before.truncated && line_fits(before.text, lines.last()) {
            lemma_with_line_len(before.text, lines.last());
        }
    }
}

/// A context never has more bytes than allowed.
pub proof fn law_context_is_capped(references: Seq<(Seq<char>, ReferencesView)>, debug: bool)
    ensures
        context_of(references, debug) matches Some(text) ==> utf8_len(text) <= MAX_CONTEXT_BYTES,
{
    let lines = context_lines(references, debug);
    lemma_capped_len(lines);
    let capped = capped_lines(lines);
    if capped.truncated && line_fits(capped.text, cap_note()) {
        lemma_with_line_len(capped.text, cap_note());
    }
}

} // verus!
