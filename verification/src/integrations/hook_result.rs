//! The result of an operation that was run in place of a command.
#![verifier::loop_isolation(false)]

use crate::backends::inspect_file::{header_of, FileInspection, InspectionView};
use crate::number::{decimal, parse_usize, push_decimal, read_unsigned};
use crate::split::{join, joined, lines, lines_of};
use crate::text::{after_prefix, clone_texts, owned, push_item, same, strip_prefix, trim, trimmed};
use vstd::prelude::*;
use vstd::string::*;

verus! {

/// Whether there is anything to show.
#[derive(Debug, Clone, Copy, PartialEq, Eq, Structural)]
pub enum HookStatus {
    Found,
    Empty,
}

impl HookStatus {
    /// The word for a status.
    pub open spec fn word(self) -> Seq<char> {
        match self {
            HookStatus::Found => "ok"@,
            HookStatus::Empty => "empty"@,
        }
    }

    /// The word for a status.
    pub fn as_str(self) -> (r: &'static str)
        ensures
            r@ == self.word(),
    {
        match self {
            HookStatus::Found => "ok",
            HookStatus::Empty => "empty",
        }
    }
}

/// What one step shows.
#[derive(Debug, Clone, PartialEq, Eq)]
pub struct ResultPart {
    pub kind: &'static str,
    pub status: HookStatus,
    pub items: Option<usize>,
    pub omitted: Option<usize>,
    pub metadata: Vec<String>,
    pub body: String,
}

/// The contents of what one step shows.
#[verifier::ext_equal]
pub ghost struct PartView {
    pub kind: Seq<char>,
    pub status: HookStatus,
    pub items: Option<usize>,
    pub omitted: Option<usize>,
    pub metadata: Seq<Seq<char>>,
    pub body: Seq<char>,
}

impl DeepView for ResultPart {
    type V = PartView;

    open spec fn deep_view(&self) -> PartView {
        PartView {
            kind: self.kind@,
            status: self.status,
            items: self.items,
            omitted: self.omitted,
            metadata: self.metadata.deep_view(),
            body: self.body@,
        }
    }
}

/// What an operation shows, with its steps where it has several.
#[derive(Debug, Clone, PartialEq, Eq)]
pub struct HookResult {
    pub head: ResultPart,
    pub segments: Vec<ResultPart>,
}

/// The contents of what an operation shows.
#[verifier::ext_equal]
pub ghost struct ResultView {
    pub head: PartView,
    pub segments: Seq<PartView>,
}

impl DeepView for HookResult {
    type V = ResultView;

    open spec fn deep_view(&self) -> ResultView {
        ResultView { head: self.head.deep_view(), segments: self.segments.deep_view() }
    }
}

// Bodies.

/// What is left of a body, how many items it holds and how many it says are
/// left out.
#[verifier::ext_equal]
pub ghost struct BodyView {
    pub lines: Seq<Seq<char>>,
    pub items: nat,
    pub omitted: Option<usize>,
}

/// Whether a line of a body is an item: it is neither blank nor a separator.
pub open spec fn is_item(line: Seq<char>) -> bool {
    trimmed(line).len() > 0 && line != "--"@
}

/// The lines of a body without those that count what is left out.
pub open spec fn body_of(lines: Seq<Seq<char>>) -> BodyView
    decreases lines.len(),
{
    if lines.len() == 0 {
        BodyView { lines: Seq::empty(), items: 0, omitted: None }
    } else {
        let before = body_of(lines.drop_last());
        match after_prefix(lines.last(), "omitted_count="@) {
            Some(value) => BodyView { omitted: read_unsigned(value), ..before },
            None => BodyView {
                lines: before.lines.push(lines.last()),
                items: before.items + if is_item(lines.last()) {
                    1nat
                } else {
                    0nat
                },
                ..before
            },
        }
    }
}

/// The body without the lines that count what is left out, how many items it
/// holds, and how many the last of those lines says are left out.
pub fn normalize_body_and_count_items(body: &str) -> (r: (String, usize, Option<usize>))
    ensures
        r.0@ == joined(body_of(lines_of(body@)).lines, "\n"@),
        r.1 == body_of(lines_of(body@)).items,
        r.2 == body_of(lines_of(body@)).omitted,
{
    let all = lines(body);
    let ghost view = all.deep_view();
    let mut kept: Vec<String> = Vec::new();
    let mut items: usize = 0;
    let mut omitted: Option<usize> = None;
    let mut i: usize = 0;
    assert(kept.deep_view() =~= body_of(view.take(0)).lines);
    while i < all.len()
        invariant
            i <= all.len(),
            items <= i,
            kept.deep_view() == body_of(view.take(i as int)).lines,
            items == body_of(view.take(i as int)).items,
            omitted == body_of(view.take(i as int)).omitted,
        decreases all.len() - i,
    {
        proof {
            assert(view.take(i + 1).drop_last() =~= view.take(i as int));
            assert(view.take(i + 1).last() == all[i as int]@);
        }
        let line = all[i].as_str();
        match strip_prefix(line, "omitted_count=") {
            Some(value) => {
                omitted = parse_usize(value.as_str());
            },
            None => {
                push_item(&mut kept, owned(line));
                if trim(line).as_str().unicode_len() > 0 && !same(line, "--") {
                    items += 1;
                }
            },
        }
        i += 1;
    }
    assert(view.take(i as int) =~= view);
    (join(&kept, "\n"), items, omitted)
}

// Results.

/// The result of a step that found nothing.
pub open spec fn nothing(kind: Seq<char>) -> PartView {
    PartView {
        kind,
        status: HookStatus::Empty,
        items: Some(0),
        omitted: None,
        metadata: Seq::empty(),
        body: "no results"@,
    }
}

/// A result of one step.
pub open spec fn single(part: PartView) -> ResultView {
    ResultView { head: part, segments: Seq::empty() }
}

/// The result of an operation that found lines.
pub open spec fn result_of_lines(kind: Seq<char>, lines: Seq<Seq<char>>) -> ResultView {
    single(
        if lines.len() == 0 {
            nothing(kind)
        } else {
            PartView {
                kind,
                status: HookStatus::Found,
                items: Some(lines.len() as usize),
                omitted: None,
                metadata: Seq::empty(),
                body: joined(lines, "\n"@),
            }
        },
    )
}

/// The result of an operation that gave a text.
pub open spec fn result_of_body(kind: Seq<char>, body: Seq<char>) -> ResultView {
    let read = body_of(lines_of(body));
    single(
        if trimmed(body).len() == 0 || trimmed(body) == "no results"@ {
            nothing(kind)
        } else {
            PartView {
                kind,
                status: HookStatus::Found,
                items: Some(read.items as usize),
                omitted: read.omitted,
                metadata: Seq::empty(),
                body: joined(read.lines, "\n"@),
            }
        },
    )
}

/// The result of an inspection.
pub open spec fn result_of_inspection(inspection: InspectionView) -> ResultView {
    let blank = trimmed(inspection.body).len() == 0;
    single(
        PartView {
            kind: "inspect_file"@,
            status: if blank {
                HookStatus::Empty
            } else {
                HookStatus::Found
            },
            items: None,
            omitted: None,
            metadata: header_of(inspection),
            body: if blank {
                "no results"@
            } else {
                inspection.body
            },
        },
    )
}

/// The heads of results.
pub open spec fn heads(results: Seq<ResultView>) -> Seq<PartView> {
    results.map_values(|result: ResultView| result.head)
}

/// The result of an operation of several steps. There is nothing to show if
/// none of them has anything.
pub open spec fn result_of_segments(kind: Seq<char>, results: Seq<ResultView>) -> ResultView {
    ResultView {
        head: PartView {
            kind,
            status: if forall|i: int|
                0 <= i < results.len() ==> (#[trigger] results[i]).head.status
                    == HookStatus::Empty {
                HookStatus::Empty
            } else {
                HookStatus::Found
            },
            items: Some(results.len() as usize),
            omitted: None,
            metadata: Seq::empty(),
            body: Seq::empty(),
        },
        segments: heads(results),
    }
}

/// The first line of a part.
pub open spec fn header(part: PartView) -> Seq<char> {
    let items = match part.items {
        Some(items) => " items="@ + decimal(items as nat),
        None => Seq::empty(),
    };
    let omitted = match part.omitted {
        Some(omitted) => " omitted="@ + decimal(omitted as nat),
        None => Seq::empty(),
    };
    "kind="@ + part.kind + " status="@ + part.status.word() + items + omitted
}

/// The lines of step `i`.
pub open spec fn segment_lines(part: PartView, i: int) -> Seq<Seq<char>> {
    let gap = if i > 0 {
        seq![Seq::<char>::empty()]
    } else {
        Seq::empty()
    };
    let body = if part.body.len() == 0 {
        Seq::empty()
    } else if part.metadata.len() == 0 {
        seq![part.body]
    } else {
        seq![Seq::<char>::empty(), part.body]
    };
    gap + seq!["segment "@ + decimal((i + 1) as nat) + " "@ + header(part)] + part.metadata + body
}

/// The lines of the first `n` steps.
pub open spec fn segments_lines(parts: Seq<PartView>, n: nat) -> Seq<Seq<char>>
    decreases n,
{
    if n == 0 {
        Seq::empty()
    } else {
        segments_lines(parts, (n - 1) as nat) + segment_lines(parts[n - 1], n - 1)
    }
}

/// The lines of a result.
pub open spec fn result_lines(result: ResultView) -> Seq<Seq<char>> {
    let top = seq!["slowcatch_result v1 text"@, header(result.head)] + result.head.metadata;
    if result.segments.len() > 0 {
        top.push(Seq::empty()) + segments_lines(result.segments, result.segments.len())
    } else if result.head.body.len() > 0 {
        top.push(Seq::empty()).push(result.head.body)
    } else {
        top
    }
}

impl ResultPart {
    /// The first line of a part.
    pub fn header_line(&self) -> (r: String)
        ensures
            r@ == header(self.deep_view()),
    {
        let mut line = owned("kind=");
        line.append(self.kind);
        line.append(" status=");
        line.append(self.status.as_str());
        let ghost start = line@;
        match self.items {
            Some(items) => {
                line.append(" items=");
                push_decimal(&mut line, items as u128);
            },
            None => {},
        }
        let ghost middle = line@;
        match self.omitted {
            Some(omitted) => {
                line.append(" omitted=");
                push_decimal(&mut line, omitted as u128);
            },
            None => {},
        }
        assert(line@ =~= header(self.deep_view()));
        line
    }

    /// The first line of a step with its number.
    pub fn segment_header_line(&self, index: usize) -> (r: String)
        ensures
            r@ == "segment "@ + decimal(index as nat) + " "@ + header(self.deep_view()),
    {
        let mut line = owned("segment ");
        push_decimal(&mut line, index as u128);
        line.append(" ");
        line.append(self.header_line().as_str());
        line
    }
}

fn push_lines(output: &mut Vec<String>, lines: &Vec<String>)
    ensures
        final(output).deep_view() == old(output).deep_view() + lines.deep_view(),
{
    let ghost before = output.deep_view();
    let mut copy = clone_texts(lines);
    let ghost more = copy.deep_view();
    output.append(&mut copy);
    assert(output.deep_view() =~= before + more);
}

fn push_blank(output: &mut Vec<String>)
    ensures
        final(output).deep_view() == old(output).deep_view().push(Seq::empty()),
{
    let blank = String::new();
    assert(blank@ =~= Seq::<char>::empty());
    push_item(output, blank);
}

fn push_segment(output: &mut Vec<String>, part: &ResultPart, i: usize)
    requires
        i < usize::MAX,
    ensures
        final(output).deep_view() == old(output).deep_view() + segment_lines(
            part.deep_view(),
            i as int,
        ),
{
    let ghost before = output.deep_view();
    if i > 0 {
        push_blank(output);
    }
    push_item(output, part.segment_header_line(i + 1));
    push_lines(output, &part.metadata);
    if part.body.as_str().unicode_len() > 0 {
        if part.metadata.len() > 0 {
            push_blank(output);
        }
        push_item(output, part.body.clone());
    }
    assert(output.deep_view() =~= before + segment_lines(part.deep_view(), i as int));
}

impl HookResult {
    fn of_part(head: ResultPart) -> (r: Self)
        ensures
            r.deep_view() == single(head.deep_view()),
    {
        let r = HookResult { head, segments: Vec::new() };
        assert(r.deep_view() =~= single(head.deep_view()));
        r
    }

    /// The result of an operation that found nothing.
    pub fn empty(kind: &'static str) -> (r: Self)
        ensures
            r.deep_view() == single(nothing(kind@)),
    {
        let metadata: Vec<String> = Vec::new();
        assert(metadata.deep_view() =~= Seq::<Seq<char>>::empty());
        HookResult::of_part(
            ResultPart {
                kind,
                status: HookStatus::Empty,
                items: Some(0),
                omitted: None,
                metadata,
                body: owned("no results"),
            },
        )
    }

    /// The result of an operation that found lines.
    pub fn from_lines(kind: &'static str, lines: &Vec<String>) -> (r: Self)
        ensures
            r.deep_view() == result_of_lines(kind@, lines.deep_view()),
    {
        if lines.len() == 0 {
            return HookResult::empty(kind);
        }
        let metadata: Vec<String> = Vec::new();
        assert(metadata.deep_view() =~= Seq::<Seq<char>>::empty());
        HookResult::of_part(
            ResultPart {
                kind,
                status: HookStatus::Found,
                items: Some(lines.len()),
                omitted: None,
                metadata,
                body: join(lines, "\n"),
            },
        )
    }

    /// The result of an operation that gave a text.
    pub fn from_body(kind: &'static str, body: &str) -> (r: Self)
        ensures
            r.deep_view() == result_of_body(kind@, body@),
    {
        let text = trim(body);
        if text.as_str().unicode_len() == 0 || same(text.as_str(), "no results") {
            return HookResult::empty(kind);
        }
        let (body, items, omitted) = normalize_body_and_count_items(body);
        let metadata: Vec<String> = Vec::new();
        assert(metadata.deep_view() =~= Seq::<Seq<char>>::empty());
        HookResult::of_part(
            ResultPart { kind, status: HookStatus::Found, items: Some(items), omitted, metadata, body },
        )
    }

    /// The result of an inspection.
    pub fn inspect_file(inspection: &FileInspection) -> (r: Self)
        ensures
            r.deep_view() == result_of_inspection(inspection.deep_view()),
    {
        let blank = trim(inspection.body.as_str()).as_str().unicode_len() == 0;
        HookResult::of_part(
            ResultPart {
                kind: "inspect_file",
                status: if blank {
                    HookStatus::Empty
                } else {
                    HookStatus::Found
                },
                items: None,
                omitted: None,
                metadata: inspection.header_lines(),
                body: if blank {
                    owned("no results")
                } else {
                    inspection.body.clone()
                },
            },
        )
    }

    /// The result of an operation of several steps.
    pub fn segments(kind: &'static str, results: Vec<HookResult>) -> (r: Self)
        ensures
            r.deep_view() == result_of_segments(kind@, results.deep_view()),
    {
        let ghost view = results.deep_view();
        let count: usize = results.len();
        let mut status = HookStatus::Empty;
        let mut i: usize = 0;
        while i < results.len()
            invariant
                i <= results.len(),
                status == HookStatus::Empty <==> (forall|j: int|
                    0 <= j < i ==> (#[trigger] view[j]).head.status == HookStatus::Empty),
            decreases results.len() - i,
        {
            assert(view[i as int] == results[i as int].deep_view());
            if !matches!(results[i].head.status, HookStatus::Empty) {
                status = HookStatus::Found;
            }
            i += 1;
        }
        let ghost all = heads(view);
        let mut rest = results;
        let mut back: Vec<ResultPart> = Vec::new();
        while rest.len() > 0
            invariant
                rest.len() + back.len() == count,
                rest.deep_view() == view.take(rest@.len() as int),
                forall|j: int|
                    0 <= j < back.len() ==> #[trigger] back@[j].deep_view() == all[count - 1 - j],
            decreases rest.len(),
        {
            let ghost n = rest@.len();
            let ghost before = rest@;
            let ghost before_view = rest.deep_view();
            match rest.pop() {
                Some(last) => {
                    assert(before_view[n - 1] == before[n - 1].deep_view());
                    assert(rest.deep_view() =~= before_view.drop_last());
                    assert(rest.deep_view() =~= view.take(n - 1));
                    back.push(last.head);
                },
                None => {},
            }
        }
        let mut segments: Vec<ResultPart> = Vec::new();
        assert(segments.deep_view() =~= all.take(0));
        while back.len() > 0
            invariant
                segments.len() + back.len() == count,
                segments.deep_view() == all.take(segments@.len() as int),
                forall|j: int|
                    0 <= j < back.len() ==> #[trigger] back@[j].deep_view() == all[count - 1 - j],
            decreases back.len(),
        {
            let ghost n = segments@.len();
            match back.pop() {
                Some(part) => {
                    assert(part.deep_view() == all[n as int]);
                    push_item(&mut segments, part);
                    assert(segments.deep_view() =~= all.take((n + 1) as int));
                },
                None => {},
            }
        }
        assert(all.take(count as int) =~= all);
        let metadata: Vec<String> = Vec::new();
        assert(metadata.deep_view() =~= Seq::<Seq<char>>::empty());
        let body = String::new();
        assert(body@ =~= Seq::<char>::empty());
        HookResult {
            head: ResultPart { kind, status, items: Some(count), omitted: None, metadata, body },
            segments,
        }
    }

    /// The same result under another name.
    pub fn renamed(self, kind: &'static str) -> (r: Self)
        ensures
            r.deep_view() == (ResultView {
                head: PartView { kind: kind@, ..self.deep_view().head },
                ..self.deep_view()
            }),
    {
        let HookResult { head, segments } = self;
        let ResultPart { kind: _, status, items, omitted, metadata, body } = head;
        HookResult { head: ResultPart { kind, status, items, omitted, metadata, body }, segments }
    }

    /// The result as text.
    pub fn render(&self) -> (r: String)
        ensures
            r@ == joined(result_lines(self.deep_view()), "\n"@),
    {
        let ghost view = self.deep_view();
        let mut output: Vec<String> = Vec::new();
        push_item(&mut output, owned("slowcatch_result v1 text"));
        push_item(&mut output, self.head.header_line());
        push_lines(&mut output, &self.head.metadata);
        let ghost top = output.deep_view();
        assert(top =~= seq!["slowcatch_result v1 text"@, header(view.head)] + view.head.metadata);
        if self.segments.len() > 0 {
            push_blank(&mut output);
            let ghost start = output.deep_view();
            assert(start =~= top.push(Seq::empty()));
            let mut i: usize = 0;
            assert(start + Seq::<Seq<char>>::empty() =~= start);
            while i < self.segments.len()
                invariant
                    i <= self.segments.len(),
                    output.deep_view() == start + segments_lines(view.segments, i as nat),
                decreases self.segments.len() - i,
            {
                assert(view.segments[i as int] == self.segments[i as int].deep_view());
                push_segment(&mut output, &self.segments[i], i);
                i += 1;
                assert(output.deep_view() =~= start + segments_lines(view.segments, i as nat));
            }
        } else if self.head.body.as_str().unicode_len() > 0 {
            push_blank(&mut output);
            push_item(&mut output, self.head.body.clone());
        }
        assert(output.deep_view() =~= result_lines(view));
        join(&output, "\n")
    }
}

/// What a body counts is bounded by its lines, and none of the lines that are
/// left counts what is left out.
pub proof fn law_body_counts(lines: Seq<Seq<char>>)
    ensures
        body_of(lines).items <= body_of(lines).lines.len() <= lines.len(),
        forall|i: int|
            0 <= i < body_of(lines).lines.len() ==> after_prefix(
                #[trigger] body_of(lines).lines[i],
                "omitted_count="@,
            ) is None,
    decreases lines.len(),
{
    if lines.len() > 0 {
        law_body_counts(lines.drop_last());
        let before = body_of(lines.drop_last());
        assert forall|i: int| 0 <= i < body_of(lines).lines.len() implies after_prefix(
            #[trigger] body_of(lines).lines[i],
            "omitted_count="@,
        ) is None by {
            if i < before.lines.len() {
                assert(body_of(lines).lines[i] == before.lines[i]);
            }
        }
    }
}

/// Every result starts with the same line, and the second line names what was
/// run.
pub proof fn law_result_header(result: ResultView)
    ensures
        result_lines(result).len() >= 2,
        result_lines(result)[0] == "slowcatch_result v1 text"@,
        result_lines(result)[1] == header(result.head),
{
}

/// An operation that found nothing says so, in four lines.
pub proof fn law_empty_result(kind: Seq<char>)
    ensures
        result_lines(single(nothing(kind))) == seq![
            "slowcatch_result v1 text"@,
            "kind="@ + kind + " status=empty items=0"@,
            Seq::<char>::empty(),
            "no results"@,
        ],
{
    reveal_strlit(" status=empty items=0");
    reveal_strlit(" status=");
    reveal_strlit("empty");
    reveal_strlit(" items=");
    reveal_strlit("no results");
    let part = nothing(kind);
    assert(decimal(0) =~= seq!['0']);
    assert(header(part) =~= "kind="@ + kind + " status=empty items=0"@);
    assert(result_lines(single(part)) =~= seq![
        "slowcatch_result v1 text"@,
        "kind="@ + kind + " status=empty items=0"@,
        Seq::<char>::empty(),
        "no results"@,
    ]);
}

} // verus!
