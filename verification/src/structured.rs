//! Records: filtering, sorting, selecting and rendering.
#![verifier::loop_isolation(false)]

use crate::backends::grep::at_most;
use crate::backends::projection::{dotted_extension, extension_with_dot};
use crate::case::{is_word, word_chars};
use crate::json::json_string;
use crate::number::{decimal, decimal_text};
use crate::paths::{is_parent, name_of, names, parent};
use crate::sorting::{
    key_less, key_of_text, lemma_less_irreflexive, lemma_less_total, lemma_less_transitive,
    lemma_order_transitive, order_of, positions, sort_positions, text_key,
};
use crate::split::{find_char, join, joined, position_of, split_char, split_on};
use crate::text::{
    contains, has_text, owned, push_item, same, text_range, to_chars, trim, trimmed,
};
use vstd::prelude::*;
use vstd::string::*;

verus! {

// Records.

/// The value of a column.
#[derive(Debug, Clone, PartialEq, Eq)]
pub enum FieldValue {
    Text(String),
    Number(u64),
    Null,
}

/// The contents of a value.
#[verifier::ext_equal]
pub ghost enum FieldView {
    Text(Seq<char>),
    Number(u64),
    Null,
}

impl DeepView for FieldValue {
    type V = FieldView;

    open spec fn deep_view(&self) -> FieldView {
        match self {
            FieldValue::Text(text) => FieldView::Text(text@),
            FieldValue::Number(n) => FieldView::Number(*n),
            FieldValue::Null => FieldView::Null,
        }
    }
}

impl FieldValue {
    /// A copy.
    pub fn copy(&self) -> (r: FieldValue)
        ensures
            r.deep_view() == self.deep_view(),
    {
        match self {
            FieldValue::Text(text) => FieldValue::Text(text.clone()),
            FieldValue::Number(n) => FieldValue::Number(*n),
            FieldValue::Null => FieldValue::Null,
        }
    }
}

/// The columns of a record and their values. No column stands twice.
#[derive(Debug, Clone, PartialEq, Eq)]
pub struct Record {
    pub fields: Vec<(String, FieldValue)>,
}

/// The columns and values of a list of fields, the later over the earlier.
pub open spec fn columns_in(fields: Seq<(Seq<char>, FieldView)>) -> Map<Seq<char>, FieldView>
    decreases fields.len(),
{
    if fields.len() == 0 {
        Map::empty()
    } else {
        columns_in(fields.drop_last()).insert(fields.last().0, fields.last().1)
    }
}

impl DeepView for Record {
    type V = Map<Seq<char>, FieldView>;

    open spec fn deep_view(&self) -> Map<Seq<char>, FieldView> {
        columns_in(self.fields.deep_view())
    }
}

/// The value of a column, if the record has it.
pub open spec fn value_in(record: Map<Seq<char>, FieldView>, column: Seq<char>) -> Option<
    FieldView,
> {
    if record.dom().contains(column) {
        Some(record[column])
    } else {
        None
    }
}

proof fn lemma_columns_update(
    fields: Seq<(Seq<char>, FieldView)>,
    i: int,
    value: FieldView,
)
    requires
        0 <= i < fields.len(),
        forall|j: int| i < j < fields.len() ==> (#[trigger] fields[j]).0 != fields[i].0,
    ensures
        columns_in(fields.update(i, (fields[i].0, value))) == columns_in(fields).insert(
            fields[i].0,
            value,
        ),
    decreases fields.len(),
{
    let new = fields.update(i, (fields[i].0, value));
    if i == fields.len() - 1 {
        assert(new.drop_last() =~= fields.drop_last());
        assert(columns_in(new) =~= columns_in(fields).insert(fields[i].0, value));
    } else {
        let last = fields.len() - 1;
        assert(fields[last].0 != fields[i].0);
        assert(new.drop_last() =~= fields.drop_last().update(i, (fields[i].0, value)));
        assert forall|j: int| i < j < fields.drop_last().len() implies (
        #[trigger] fields.drop_last()[j]).0 != fields.drop_last()[i].0 by {
            assert(fields.drop_last()[j] == fields[j]);
        }
        lemma_columns_update(fields.drop_last(), i, value);
        assert(columns_in(new) =~= columns_in(fields).insert(fields[i].0, value));
    }
}

proof fn lemma_columns_found(fields: Seq<(Seq<char>, FieldView)>, i: int, column: Seq<char>)
    requires
        0 <= i <= fields.len(),
        forall|j: int| i <= j < fields.len() ==> (#[trigger] fields[j]).0 != column,
    ensures
        value_in(columns_in(fields), column) == value_in(columns_in(fields.take(i)), column),
    decreases fields.len() - i,
{
    if i < fields.len() {
        assert(fields[fields.len() - 1].0 != column);
        let shorter = fields.drop_last();
        assert forall|j: int| i <= j < shorter.len() implies (#[trigger] shorter[j]).0 != column by {
            assert(shorter[j] == fields[j]);
        }
        assert(shorter.take(i) =~= fields.take(i));
        lemma_columns_found(shorter, i, column);
    } else {
        assert(fields.take(i) =~= fields);
    }
}

/// Whether no column stands twice.
pub open spec fn distinct_columns(fields: Seq<(Seq<char>, FieldView)>) -> bool {
    forall|i: int, j: int|
        0 <= i < j < fields.len() ==> (#[trigger] fields[i]).0 != (#[trigger] fields[j]).0
}

proof fn lemma_columns_count(fields: Seq<(Seq<char>, FieldView)>)
    requires
        distinct_columns(fields),
    ensures
        columns_in(fields).dom().finite(),
        columns_in(fields).dom().len() == fields.len(),
        forall|column: Seq<char>| #[trigger]
            columns_in(fields).dom().contains(column) ==> exists|i: int|
                0 <= i < fields.len() && (#[trigger] fields[i]).0 == column,
    decreases fields.len(),
{
    if fields.len() > 0 {
        let shorter = fields.drop_last();
        assert forall|i: int, j: int| 0 <= i < j < shorter.len() implies (#[trigger] shorter[i]).0
            != (#[trigger] shorter[j]).0 by {
            assert(shorter[i] == fields[i] && shorter[j] == fields[j]);
        }
        lemma_columns_count(shorter);
        let last = fields.last().0;
        assert(!columns_in(shorter).dom().contains(last)) by {
            if columns_in(shorter).dom().contains(last) {
                let i = choose|i: int| 0 <= i < shorter.len() && (#[trigger] shorter[i]).0 == last;
                assert(fields[i].0 != fields[fields.len() - 1].0);
            }
        }
        assert forall|column: Seq<char>| #[trigger]
            columns_in(fields).dom().contains(column) implies exists|i: int|
            0 <= i < fields.len() && (#[trigger] fields[i]).0 == column by {
            if column == last {
                assert(fields[fields.len() - 1].0 == column);
            } else {
                let i = choose|i: int|
                    0 <= i < shorter.len() && (#[trigger] shorter[i]).0 == column;
                assert(fields[i].0 == column);
            }
        }
    }
}

impl Record {
    /// Whether no column stands twice.
    pub open spec fn wf(&self) -> bool {
        distinct_columns(self.fields.deep_view())
    }

    /// A record without columns.
    pub fn new() -> (r: Record)
        ensures
            r.wf(),
            r.deep_view() == Map::<Seq<char>, FieldView>::empty(),
    {
        let fields: Vec<(String, FieldValue)> = Vec::new();
        assert(fields.deep_view() =~= Seq::<(Seq<char>, FieldView)>::empty());
        Record { fields }
    }

    /// Gives a column a value.
    pub fn insert(&mut self, column: &str, value: FieldValue)
        ensures
            old(self).wf() ==> final(self).wf(),
            final(self).deep_view() == old(self).deep_view().insert(column@, value.deep_view()),
    {
        let ghost view = self.fields.deep_view();
        let mut i: usize = self.fields.len();
        while i > 0
            invariant
                i <= self.fields.len(),
                self.fields.deep_view() == view,
                forall|j: int| i <= j < view.len() ==> (#[trigger] view[j]).0 != column@,
            decreases i,
        {
            i -= 1;
            assert(view[i as int] == (
                self.fields[i as int].0@,
                self.fields[i as int].1.deep_view(),
            ));
            if same(self.fields[i].0.as_str(), column) {
                proof {
                    lemma_columns_update(view, i as int, value.deep_view());
                }
                let ghost old_fields = self.fields@;
                self.fields.set(i, (owned(column), value));
                assert(self.fields.deep_view() =~= view.update(
                    i as int,
                    (column@, value.deep_view()),
                )) by {
                    assert forall|j: int| 0 <= j < view.len() implies self.fields.deep_view()[j]
                        == view.update(i as int, (column@, value.deep_view()))[j] by {
                        assert(view[j] == (old_fields[j].0@, old_fields[j].1.deep_view()));
                    }
                }
                return;
            }
        }
        push_item(&mut self.fields, (owned(column), value));
        assert(self.fields.deep_view().drop_last() =~= view);
    }

    /// The value of a column.
    pub fn get(&self, column: &str) -> (r: Option<FieldValue>)
        ensures
            r.deep_view() == value_in(self.deep_view(), column@),
    {
        let ghost view = self.fields.deep_view();
        let mut i: usize = self.fields.len();
        while i > 0
            invariant
                i <= self.fields.len(),
                forall|j: int| i <= j < view.len() ==> (#[trigger] view[j]).0 != column@,
            decreases i,
        {
            assert(view[i - 1] == (self.fields[i - 1].0@, self.fields[i - 1].1.deep_view()));
            if same(self.fields[i - 1].0.as_str(), column) {
                proof {
                    lemma_columns_found(view, i as int, column@);
                    assert(view.take(i as int).last() == view[i - 1]);
                }
                return Some(self.fields[i - 1].1.copy());
            }
            i -= 1;
        }
        proof {
            lemma_columns_found(view, 0, column@);
            assert(view.take(0) =~= Seq::<(Seq<char>, FieldView)>::empty());
        }
        None
    }

    /// How many columns the record has.
    pub fn len(&self) -> (r: usize)
        requires
            self.wf(),
        ensures
            r == self.deep_view().dom().len(),
    {
        proof {
            lemma_columns_count(self.fields.deep_view());
        }
        self.fields.len()
    }

    /// A copy.
    pub fn copy(&self) -> (r: Record)
        ensures
            self.wf() ==> r.wf(),
            r.deep_view() == self.deep_view(),
    {
        let ghost view = self.fields.deep_view();
        let mut fields: Vec<(String, FieldValue)> = Vec::new();
        let mut i: usize = 0;
        assert(fields.deep_view() =~= view.take(0));
        while i < self.fields.len()
            invariant
                i <= self.fields.len(),
                fields.deep_view() == view.take(i as int),
            decreases self.fields.len() - i,
        {
            push_item(&mut fields, (self.fields[i].0.clone(), self.fields[i].1.copy()));
            i += 1;
            assert(fields.deep_view() =~= view.take(i as int));
        }
        assert(view.take(i as int) =~= view);
        Record { fields }
    }
}

/// The columns of the record of a path.
pub open spec fn path_columns(path: Seq<char>, name: Seq<char>, parent: Seq<char>) -> Map<
    Seq<char>,
    FieldView,
> {
    Map::empty().insert("path"@, FieldView::Text(path)).insert("name"@, FieldView::Text(name)).insert(
        "extension"@,
        FieldView::Text(dotted_extension(name)),
    ).insert("parent"@, FieldView::Text(parent))
}

/// The record of a path with the given name and parent.
pub fn path_record_from(path: &str, name: &str, parent: &str) -> (r: Record)
    ensures
        r.wf(),
        r.deep_view() == path_columns(path@, name@, parent@),
{
    let mut record = Record::new();
    record.insert("path", FieldValue::Text(owned(path)));
    record.insert("name", FieldValue::Text(owned(name)));
    record.insert("extension", FieldValue::Text(extension_with_dot(name)));
    record.insert("parent", FieldValue::Text(owned(parent)));
    record
}

/// Whether a text is the parent that the host sees in a path, empty where it
/// sees none.
pub open spec fn parent_column(path: Seq<char>, parent: Seq<char>) -> bool {
    exists|seen: Option<Seq<char>>| #[trigger]
        is_parent(path, seen) && parent == match seen {
            Some(text) => text,
            None => Seq::empty(),
        }
}

/// The record of a path. Its name and parent are what the host sees in it.
pub fn path_record(path: &str) -> (r: Record)
    ensures
        r.wf(),
        exists|name: Seq<char>, parent: Seq<char>|
            r.deep_view() == #[trigger] path_columns(path@, name, parent) && names(path@, name)
                && parent_column(path@, parent),
{
    let name = name_of(path);
    let seen = parent(path);
    let parent = match &seen {
        Some(parent) => parent.clone(),
        None => String::new(),
    };
    proof {
        assert(is_parent(path@, seen.deep_view()));
        assert(seen is None ==> parent@ =~= Seq::<char>::empty());
        assert(parent_column(path@, parent@));
    }
    path_record_from(path, name.as_str(), parent.as_str())
}

/// The record of a matching line in a file.
pub open spec fn grep_columns(
    base: Map<Seq<char>, FieldView>,
    line_number: usize,
    line: Seq<char>,
) -> Map<Seq<char>, FieldView> {
    base.insert("line_number"@, FieldView::Number(line_number as u64)).insert(
        "line"@,
        FieldView::Text(line),
    )
}

/// The record of a matching line, on top of that of its path.
pub fn grep_record_from(base: Record, line_number: usize, line: &str) -> (r: Record)
    ensures
        base.wf() ==> r.wf(),
        r.deep_view() == grep_columns(base.deep_view(), line_number, line@),
{
    let mut record = base;
    record.insert("line_number", FieldValue::Number(line_number as u64));
    record.insert("line", FieldValue::Text(owned(line)));
    record
}

/// The record of a matching line in the file at `path`.
pub fn grep_record(path: &str, line_number: usize, line: &str) -> (r: Record)
    ensures
        r.wf(),
        exists|name: Seq<char>, parent: Seq<char>|
            r.deep_view() == grep_columns(
                #[trigger] path_columns(path@, name, parent),
                line_number,
                line@,
            ) && names(path@, name)
                && parent_column(path@, parent),
{
    grep_record_from(path_record(path), line_number, line)
}

/// The record of a line.
pub open spec fn slice_columns(line_number: usize, text: Seq<char>) -> Map<Seq<char>, FieldView> {
    Map::empty().insert("line_number"@, FieldView::Number(line_number as u64)).insert(
        "text"@,
        FieldView::Text(text),
    )
}

/// The record of a line.
pub fn slice_record(line_number: usize, text: &str) -> (r: Record)
    ensures
        r.wf(),
        r.deep_view() == slice_columns(line_number, text@),
{
    let mut record = Record::new();
    record.insert("line_number", FieldValue::Number(line_number as u64));
    record.insert("text", FieldValue::Text(owned(text)));
    record
}

// Options.

/// How records are rendered.
#[derive(Debug, Clone, Copy, PartialEq, Eq, Structural)]
pub enum OutputFormat {
    Text,
    Json,
    Jsonl,
}

/// Which records are kept.
#[derive(Debug, Clone, PartialEq, Eq)]
pub enum WhereClause {
    Equals { column: String, value: String },
    Contains { column: String, value: String },
}

/// The contents of a condition on records.
#[verifier::ext_equal]
pub ghost enum ClauseView {
    Equals { column: Seq<char>, value: Seq<char> },
    Contains { column: Seq<char>, value: Seq<char> },
}

impl DeepView for WhereClause {
    type V = ClauseView;

    open spec fn deep_view(&self) -> ClauseView {
        match self {
            WhereClause::Equals { column, value } => ClauseView::Equals {
                column: column@,
                value: value@,
            },
            WhereClause::Contains { column, value } => ClauseView::Contains {
                column: column@,
                value: value@,
            },
        }
    }
}

/// What is done with records.
#[derive(Debug, Clone, PartialEq, Eq)]
pub struct RecordOptions {
    pub select: Option<Vec<String>>,
    pub where_clause: Option<WhereClause>,
    pub sort_by: Option<String>,
    pub limit: Option<usize>,
}

/// The contents of what is done with records.
#[verifier::ext_equal]
pub ghost struct OptionsView {
    pub select: Option<Seq<Seq<char>>>,
    pub where_clause: Option<ClauseView>,
    pub sort_by: Option<Seq<char>>,
    pub limit: Option<usize>,
}

impl DeepView for RecordOptions {
    type V = OptionsView;

    open spec fn deep_view(&self) -> OptionsView {
        OptionsView {
            select: self.select.deep_view(),
            where_clause: self.where_clause.deep_view(),
            sort_by: self.sort_by.deep_view(),
            limit: self.limit,
        }
    }
}

impl Default for RecordOptions {
    fn default() -> (r: Self)
        ensures
            r.deep_view() == (OptionsView {
                select: None,
                where_clause: None,
                sort_by: None,
                limit: None,
            }),
    {
        RecordOptions { select: None, where_clause: None, sort_by: None, limit: None }
    }
}

/// What is wrong with the options.
#[derive(Debug, Clone, PartialEq, Eq)]
pub enum StructuredError {
    InvalidColumn { column: String },
    UnsupportedWhere,
    EmptySelect,
    UnsupportedColumn { column: String, available: String },
}

/// The contents of an error.
#[verifier::ext_equal]
pub ghost enum ErrorView {
    InvalidColumn { column: Seq<char> },
    UnsupportedWhere,
    EmptySelect,
    UnsupportedColumn { column: Seq<char>, available: Seq<char> },
}

impl DeepView for StructuredError {
    type V = ErrorView;

    open spec fn deep_view(&self) -> ErrorView {
        match self {
            StructuredError::InvalidColumn { column } => ErrorView::InvalidColumn {
                column: column@,
            },
            StructuredError::UnsupportedWhere => ErrorView::UnsupportedWhere,
            StructuredError::EmptySelect => ErrorView::EmptySelect,
            StructuredError::UnsupportedColumn { column, available } =>
            ErrorView::UnsupportedColumn { column: column@, available: available@ },
        }
    }
}

impl ErrorView {
    /// The error in words.
    pub open spec fn words(self) -> Seq<char> {
        match self {
            ErrorView::InvalidColumn { column } => "invalid column name: "@ + column,
            ErrorView::UnsupportedWhere =>
            "unsupported --where expression; use column=value or column~text"@,
            ErrorView::EmptySelect => "--select must include at least one column"@,
            ErrorView::UnsupportedColumn { column, available } => "unsupported column '"@ + column
                + "'; available columns: "@ + available,
        }
    }
}

impl StructuredError {
    /// The error in words.
    pub fn message(&self) -> (r: String)
        ensures
            r@ == self.deep_view().words(),
    {
        match self {
            StructuredError::InvalidColumn { column } => {
                let mut out = owned("invalid column name: ");
                out.append(column.as_str());
                out
            },
            StructuredError::UnsupportedWhere => owned(
                "unsupported --where expression; use column=value or column~text",
            ),
            StructuredError::EmptySelect => owned("--select must include at least one column"),
            StructuredError::UnsupportedColumn { column, available } => {
                let mut out = owned("unsupported column '");
                out.append(column.as_str());
                out.append("'; available columns: ");
                out.append(available.as_str());
                out
            },
        }
    }
}

/// A result by its contents.
pub open spec fn result_view<T: DeepView>(r: Result<T, StructuredError>) -> Result<
    T::V,
    ErrorView,
> {
    match r {
        Ok(value) => Ok(value.deep_view()),
        Err(error) => Err(error.deep_view()),
    }
}

/// The name of a column: letters, digits and underscores, without the white
/// space around them.
pub open spec fn column_of(column: Seq<char>) -> Result<Seq<char>, ErrorView> {
    let name = trimmed(column);
    if name.len() == 0 || !word_chars(name) {
        Err(ErrorView::InvalidColumn { column })
    } else {
        Ok(name)
    }
}

/// Reads the name of a column.
pub fn parse_column(column: &str) -> (r: Result<String, StructuredError>)
    ensures
        result_view(r) == column_of(column@),
{
    let name = trim(column);
    if name.as_str().unicode_len() == 0 || !is_word(name.as_str()) {
        Err(StructuredError::InvalidColumn { column: owned(column) })
    } else {
        Ok(name)
    }
}

/// A condition: a column and, after a tilde, a text that its value holds, or,
/// after an equals sign, the text that it is. The first of the two signs
/// counts.
pub open spec fn clause_of(input: Seq<char>) -> Result<ClauseView, ErrorView> {
    let tilde = position_of(input, '~');
    let equals = position_of(input, '=');
    if tilde >= input.len() && equals >= input.len() {
        Err(ErrorView::UnsupportedWhere)
    } else if tilde < equals {
        match column_of(input.take(tilde as int)) {
            Ok(column) => Ok(ClauseView::Contains { column, value: input.skip(tilde as int + 1) }),
            Err(error) => Err(error),
        }
    } else {
        match column_of(input.take(equals as int)) {
            Ok(column) => Ok(ClauseView::Equals { column, value: input.skip(equals as int + 1) }),
            Err(error) => Err(error),
        }
    }
}

/// The column of a condition.
pub open spec fn clause_column(clause: ClauseView) -> Seq<char> {
    match clause {
        ClauseView::Equals { column, .. } => column,
        ClauseView::Contains { column, .. } => column,
    }
}

impl WhereClause {
    /// Reads a condition.
    pub fn parse(input: &str) -> (r: Result<WhereClause, StructuredError>)
        ensures
            result_view(r) == clause_of(input@),
    {
        let chars = to_chars(input);
        let tilde = find_char(&chars, 0, '~');
        let equals = find_char(&chars, 0, '=');
        assert(chars@.skip(0) =~= chars@);
        if tilde >= chars.len() && equals >= chars.len() {
            return Err(StructuredError::UnsupportedWhere);
        }
        let contains = tilde < equals;
        let at: usize = if contains {
            tilde
        } else {
            equals
        };
        let name = text_range(&chars, 0, at);
        let value = text_range(&chars, at + 1, chars.len());
        assert(name@ =~= input@.take(at as int));
        assert(value@ =~= input@.skip(at as int + 1));
        match parse_column(name.as_str()) {
            Ok(column) => if contains {
                Ok(WhereClause::Contains { column, value })
            } else {
                Ok(WhereClause::Equals { column, value })
            },
            Err(error) => Err(error),
        }
    }

    /// The column of the condition.
    pub fn column(&self) -> (r: &str)
        ensures
            r@ == clause_column(self.deep_view()),
    {
        match self {
            WhereClause::Equals { column, value: _ } => column.as_str(),
            WhereClause::Contains { column, value: _ } => column.as_str(),
        }
    }
}

/// The columns that the parts name; the first that is no name is the error.
pub open spec fn selected_columns(parts: Seq<Seq<char>>) -> Result<Seq<Seq<char>>, ErrorView>
    decreases parts.len(),
{
    if parts.len() == 0 {
        Ok(Seq::empty())
    } else {
        match selected_columns(parts.drop_last()) {
            Ok(before) => {
                let part = trimmed(parts.last());
                if part.len() == 0 {
                    Ok(before)
                } else {
                    match column_of(part) {
                        Ok(column) => Ok(before.push(column)),
                        Err(error) => Err(error),
                    }
                }
            },
            Err(error) => Err(error),
        }
    }
}

/// The columns of a list with commas: at least one.
pub open spec fn selection_of(input: Seq<char>) -> Result<Seq<Seq<char>>, ErrorView> {
    match selected_columns(split_on(input, ',')) {
        Ok(columns) => if columns.len() == 0 {
            Err(ErrorView::EmptySelect)
        } else {
            Ok(columns)
        },
        Err(error) => Err(error),
    }
}

proof fn lemma_selected_prefix(parts: Seq<Seq<char>>, n: int)
    requires
        0 <= n <= parts.len(),
        selected_columns(parts.take(n)) is Err,
    ensures
        selected_columns(parts) == selected_columns(parts.take(n)),
    decreases parts.len() - n,
{
    if n < parts.len() {
        assert(parts.take(n + 1).drop_last() =~= parts.take(n));
        lemma_selected_prefix(parts, n + 1);
    } else {
        assert(parts.take(n) =~= parts);
    }
}

/// Reads a list of columns.
pub fn parse_select(input: &str) -> (r: Result<Vec<String>, StructuredError>)
    ensures
        result_view(r) == selection_of(input@),
{
    let parts = split_char(input, ',');
    let ghost view = parts.deep_view();
    let mut columns: Vec<String> = Vec::new();
    let mut i: usize = 0;
    assert(columns.deep_view() =~= Seq::<Seq<char>>::empty());
    while i < parts.len()
        invariant
            i <= parts.len(),
            selected_columns(view.take(i as int)) == Ok::<Seq<Seq<char>>, ErrorView>(
                columns.deep_view(),
            ),
        decreases parts.len() - i,
    {
        proof {
            assert(view.take(i + 1).drop_last() =~= view.take(i as int));
            assert(view.take(i + 1).last() == parts[i as int]@);
        }
        let part = trim(parts[i].as_str());
        if part.as_str().unicode_len() > 0 {
            match parse_column(part.as_str()) {
                Ok(column) => {
                    push_item(&mut columns, column);
                },
                Err(error) => {
                    proof {
                        lemma_selected_prefix(view, i + 1);
                    }
                    return Err(error);
                },
            }
        }
        i += 1;
    }
    assert(view.take(i as int) =~= view);
    if columns.len() == 0 {
        Err(StructuredError::EmptySelect)
    } else {
        Ok(columns)
    }
}

/// Reads the column to sort by.
pub fn parse_sort_by(input: &str) -> (r: Result<String, StructuredError>)
    ensures
        result_view(r) == column_of(input@),
{
    parse_column(input)
}

/// The texts of a list of borrowed texts.
pub open spec fn texts_of(list: Seq<&str>) -> Seq<Seq<char>> {
    list.map_values(|text: &str| text@)
}

/// Checks one column.
pub open spec fn column_check(column: Seq<char>, allowed: Seq<Seq<char>>) -> Result<(), ErrorView> {
    if allowed.contains(column) {
        Ok(())
    } else {
        Err(ErrorView::UnsupportedColumn { column, available: joined(allowed, ","@) })
    }
}

/// Checks the columns in order; the first that is not allowed is the error.
pub open spec fn columns_check(columns: Seq<Seq<char>>, allowed: Seq<Seq<char>>) -> Result<
    (),
    ErrorView,
>
    decreases columns.len(),
{
    if columns.len() == 0 {
        Ok(())
    } else {
        match columns_check(columns.drop_last(), allowed) {
            Ok(_) => column_check(columns.last(), allowed),
            Err(error) => Err(error),
        }
    }
}

/// The columns that the options name: those selected, that of the condition,
/// and that to sort by.
pub open spec fn named_columns(options: OptionsView) -> Seq<Seq<char>> {
    (match options.select {
        Some(columns) => columns,
        None => Seq::empty(),
    }) + (match options.where_clause {
        Some(clause) => seq![clause_column(clause)],
        None => Seq::empty(),
    }) + (match options.sort_by {
        Some(column) => seq![column],
        None => Seq::empty(),
    })
}

fn copy_texts(list: &[&str]) -> (r: Vec<String>)
    ensures
        r.deep_view() == texts_of(list@),
{
    let ghost all = texts_of(list@);
    let mut out: Vec<String> = Vec::new();
    let mut i: usize = 0;
    assert(out.deep_view() =~= all.take(0));
    while i < list.len()
        invariant
            i <= list.len(),
            out.deep_view() == all.take(i as int),
        decreases list.len() - i,
    {
        push_item(&mut out, owned(list[i]));
        i += 1;
        assert(out.deep_view() =~= all.take(i as int));
    }
    assert(all.take(i as int) =~= all);
    out
}

fn validate_column(column: &str, allowed: &Vec<String>) -> (r: Result<(), StructuredError>)
    ensures
        match column_check(column@, allowed.deep_view()) {
            Ok(_) => r is Ok,
            Err(error) => r matches Err(found) && found.deep_view() == error,
        },
{
    let ghost view = allowed.deep_view();
    let mut i: usize = 0;
    while i < allowed.len()
        invariant
            i <= allowed.len(),
            forall|j: int| 0 <= j < i ==> #[trigger] view[j] != column@,
        decreases allowed.len() - i,
    {
        assert(view[i as int] == allowed[i as int]@);
        if same(allowed[i].as_str(), column) {
            assert(view[i as int] == column@);
            return Ok(());
        }
        i += 1;
    }
    Err(
        StructuredError::UnsupportedColumn { column: owned(column), available: join(allowed, ",") },
    )
}

proof fn lemma_check_prefix(columns: Seq<Seq<char>>, allowed: Seq<Seq<char>>, n: int)
    requires
        0 <= n <= columns.len(),
        columns_check(columns.take(n), allowed) is Err,
    ensures
        columns_check(columns, allowed) == columns_check(columns.take(n), allowed),
    decreases columns.len() - n,
{
    if n < columns.len() {
        assert(columns.take(n + 1).drop_last() =~= columns.take(n));
        lemma_check_prefix(columns, allowed, n + 1);
    } else {
        assert(columns.take(n) =~= columns);
    }
}

/// Checks that the options name only columns that there are.
pub fn validate_columns(options: &RecordOptions, allowed_columns: &[&str]) -> (r: Result<
    (),
    StructuredError,
>)
    ensures
        match columns_check(named_columns(options.deep_view()), texts_of(allowed_columns@)) {
            Ok(_) => r is Ok,
            Err(error) => r matches Err(found) && found.deep_view() == error,
        },
{
    let allowed = copy_texts(allowed_columns);
    let ghost named = named_columns(options.deep_view());
    let mut columns: Vec<String> = match &options.select {
        Some(columns) => crate::text::clone_texts(columns),
        None => Vec::new(),
    };
    if let Some(clause) = &options.where_clause {
        push_item(&mut columns, owned(clause.column()));
    }
    if let Some(column) = &options.sort_by {
        push_item(&mut columns, column.clone());
    }
    assert(columns.deep_view() =~= named);
    let mut i: usize = 0;
    while i < columns.len()
        invariant
            i <= columns.len(),
            columns_check(named.take(i as int), allowed.deep_view()) is Ok,
        decreases columns.len() - i,
    {
        proof {
            assert(named.take(i + 1).drop_last() =~= named.take(i as int));
            assert(named.take(i + 1).last() == columns[i as int]@);
        }
        if let Err(error) = validate_column(columns[i].as_str(), &allowed) {
            proof {
                lemma_check_prefix(named, allowed.deep_view(), i + 1);
            }
            return Err(error);
        }
        i += 1;
    }
    assert(named.take(i as int) =~= named);
    Ok(())
}

// Applying the options.

/// A value as text; a record that lacks the column has none.
pub open spec fn value_text(value: Option<FieldView>) -> Option<Seq<char>> {
    match value {
        Some(FieldView::Text(text)) => Some(text),
        Some(FieldView::Number(n)) => Some(decimal(n as nat)),
        Some(FieldView::Null) => Some(Seq::empty()),
        None => None,
    }
}

/// The text of a column.
pub open spec fn column_text(record: Map<Seq<char>, FieldView>, column: Seq<char>) -> Option<
    Seq<char>,
> {
    value_text(value_in(record, column))
}

impl Record {
    /// The text of a column.
    pub fn text(&self, column: &str) -> (r: Option<String>)
        ensures
            r.deep_view() == column_text(self.deep_view(), column@),
    {
        match self.get(column) {
            Some(FieldValue::Text(text)) => Some(text),
            Some(FieldValue::Number(n)) => Some(decimal_text(n as u128)),
            Some(FieldValue::Null) => Some(String::new()),
            None => None,
        }
    }
}

/// Whether a record meets a condition.
pub open spec fn meets(record: Map<Seq<char>, FieldView>, clause: ClauseView) -> bool {
    match clause {
        ClauseView::Equals { column, value } => column_text(record, column) == Some(value),
        ClauseView::Contains { column, value } => column_text(record, column) matches Some(text)
            && has_text(text, value),
    }
}

/// Whether a record meets a condition.
pub fn matches_where(record: &Record, clause: &WhereClause) -> (r: bool)
    ensures
        r == meets(record.deep_view(), clause.deep_view()),
{
    match clause {
        WhereClause::Equals { column, value } => match record.text(column.as_str()) {
            Some(text) => same(text.as_str(), value.as_str()),
            None => false,
        },
        WhereClause::Contains { column, value } => match record.text(column.as_str()) {
            Some(text) => contains(text.as_str(), value.as_str()),
            None => false,
        },
    }
}

/// The records that meet a condition, where there is one.
pub open spec fn met(
    records: Seq<Map<Seq<char>, FieldView>>,
    clause: Option<ClauseView>,
) -> Seq<Map<Seq<char>, FieldView>>
    decreases records.len(),
{
    if records.len() == 0 {
        Seq::empty()
    } else {
        let before = met(records.drop_last(), clause);
        if clause matches Some(clause) ==> meets(records.last(), clause) {
            before.push(records.last())
        } else {
            before
        }
    }
}

/// What records are sorted by: the text of a column, or nothing.
pub open spec fn record_keys(records: Seq<Map<Seq<char>, FieldView>>, column: Seq<char>) -> Seq<
    Seq<u64>,
> {
    records.map_values(
        |record: Map<Seq<char>, FieldView>|
            text_key(
                match column_text(record, column) {
                    Some(text) => text,
                    None => Seq::empty(),
                },
            ),
    )
}

/// The records in the order of a column, where one is given.
pub open spec fn in_order(
    records: Seq<Map<Seq<char>, FieldView>>,
    column: Option<Seq<char>>,
) -> Seq<Map<Seq<char>, FieldView>> {
    match column {
        Some(column) => order_of(record_keys(records, column), false).map_values(
            |i: int| records[i],
        ),
        None => records,
    }
}

/// A record with the given columns alone; those that it lacks are null.
pub open spec fn with_columns(record: Map<Seq<char>, FieldView>, columns: Seq<Seq<char>>) -> Map<
    Seq<char>,
    FieldView,
>
    decreases columns.len(),
{
    if columns.len() == 0 {
        Map::empty()
    } else {
        with_columns(record, columns.drop_last()).insert(
            columns.last(),
            match value_in(record, columns.last()) {
                Some(value) => value,
                None => FieldView::Null,
            },
        )
    }
}

/// The records with the selected columns alone, where some are selected.
pub open spec fn with_selection(
    records: Seq<Map<Seq<char>, FieldView>>,
    select: Option<Seq<Seq<char>>>,
) -> Seq<Map<Seq<char>, FieldView>> {
    match select {
        Some(columns) => records.map_values(
            |record: Map<Seq<char>, FieldView>| with_columns(record, columns),
        ),
        None => records,
    }
}

/// What the options leave of the records: those that meet the condition, in
/// order, the first so many, with the selected columns.
pub open spec fn applied(
    records: Seq<Map<Seq<char>, FieldView>>,
    options: OptionsView,
) -> Seq<Map<Seq<char>, FieldView>> {
    let ordered = in_order(met(records, options.where_clause), options.sort_by);
    let limited = match options.limit {
        Some(limit) => at_most(ordered, limit as nat),
        None => ordered,
    };
    with_selection(limited, options.select)
}

/// Whether no column stands twice in any record.
pub open spec fn all_wf(records: Seq<Record>) -> bool {
    forall|i: int| 0 <= i < records.len() ==> (#[trigger] records[i]).wf()
}

fn keep_met(records: &Vec<Record>, clause: &Option<WhereClause>) -> (r: Vec<Record>)
    ensures
        all_wf(records@) ==> all_wf(r@),
        r.deep_view() == met(records.deep_view(), clause.deep_view()),
{
    let ghost view = records.deep_view();
    let mut out: Vec<Record> = Vec::new();
    let mut i: usize = 0;
    assert(out.deep_view() =~= Seq::<Map<Seq<char>, FieldView>>::empty());
    while i < records.len()
        invariant
            i <= records.len(),
            out.deep_view() == met(view.take(i as int), clause.deep_view()),
            all_wf(records@) ==> all_wf(out@),
        decreases records.len() - i,
    {
        proof {
            assert(view.take(i + 1).drop_last() =~= view.take(i as int));
            assert(view.take(i + 1).last() == records[i as int].deep_view());
        }
        let keep = match clause {
            Some(clause) => matches_where(&records[i], clause),
            None => true,
        };
        if keep {
            push_item(&mut out, records[i].copy());
        }
        i += 1;
    }
    assert(view.take(i as int) =~= view);
    out
}

fn sort_records(records: &Vec<Record>, column: &str) -> (r: Vec<Record>)
    ensures
        all_wf(records@) ==> all_wf(r@),
        r.deep_view() == in_order(records.deep_view(), Some(column@)),
{
    let ghost view = records.deep_view();
    let ghost all_keys = record_keys(view, column@);
    let mut keys: Vec<Vec<u64>> = Vec::new();
    let mut i: usize = 0;
    while i < records.len()
        invariant
            i <= records.len(),
            keys.len() == i,
            forall|j: int| 0 <= j < i ==> #[trigger] keys@[j]@ == all_keys[j],
        decreases records.len() - i,
    {
        assert(view[i as int] == records[i as int].deep_view());
        let text = match records[i].text(column) {
            Some(text) => text,
            None => String::new(),
        };
        keys.push(key_of_text(text.as_str()));
        i += 1;
    }
    assert(keys.deep_view() =~= all_keys) by {
        assert forall|j: int| 0 <= j < all_keys.len() implies keys.deep_view()[j] == all_keys[j] by {
            assert(keys.deep_view()[j] =~= keys@[j]@);
        }
    }
    let order = sort_positions(&keys, false);
    let ghost all = in_order(view, Some(column@));
    let mut out: Vec<Record> = Vec::new();
    let mut i: usize = 0;
    assert(out.deep_view() =~= all.take(0));
    assert(positions(order@).len() == order@.len());
    while i < order.len()
        invariant
            i <= order.len(),
            out.deep_view() == all.take(i as int),
            all_wf(records@) ==> all_wf(out@),
        decreases order.len() - i,
    {
        let at = order[i];
        assert(positions(order@)[i as int] == at as int);
        assert(at < records.len());
        assert(view[at as int] == records[at as int].deep_view());
        push_item(&mut out, records[at].copy());
        i += 1;
        assert(out.deep_view() =~= all.take(i as int));
    }
    assert(all.take(i as int) =~= all);
    out
}

fn select_columns(record: &Record, columns: &Vec<String>) -> (r: Record)
    ensures
        r.wf(),
        r.deep_view() == with_columns(record.deep_view(), columns.deep_view()),
{
    let ghost view = columns.deep_view();
    let mut selected = Record::new();
    let mut i: usize = 0;
    while i < columns.len()
        invariant
            i <= columns.len(),
            selected.wf(),
            selected.deep_view() == with_columns(record.deep_view(), view.take(i as int)),
        decreases columns.len() - i,
    {
        proof {
            assert(view.take(i + 1).drop_last() =~= view.take(i as int));
            assert(view.take(i + 1).last() == columns[i as int]@);
        }
        let value = match record.get(columns[i].as_str()) {
            Some(value) => value,
            None => FieldValue::Null,
        };
        selected.insert(columns[i].as_str(), value);
        i += 1;
    }
    assert(view.take(i as int) =~= view);
    selected
}

/// Applies the options to records.
pub fn apply_options(records: Vec<Record>, options: &RecordOptions) -> (r: Vec<Record>)
    ensures
        all_wf(records@) ==> all_wf(r@),
        r.deep_view() == applied(records.deep_view(), options.deep_view()),
{
    let mut records = keep_met(&records, &options.where_clause);
    if let Some(column) = &options.sort_by {
        records = sort_records(&records, column.as_str());
    }
    if let Some(limit) = options.limit {
        if records.len() > limit {
            let ghost all = records.deep_view();
            records.truncate(limit);
            assert(records.deep_view() =~= all.take(limit as int));
        }
    }
    if let Some(columns) = &options.select {
        let ghost all = with_selection(records.deep_view(), Some(columns.deep_view()));
        let mut out: Vec<Record> = Vec::new();
        let mut i: usize = 0;
        assert(out.deep_view() =~= all.take(0));
        while i < records.len()
            invariant
                i <= records.len(),
                out.deep_view() == all.take(i as int),
                all_wf(out@),
            decreases records.len() - i,
        {
            assert(records.deep_view()[i as int] == records[i as int].deep_view());
            push_item(&mut out, select_columns(&records[i], columns));
            i += 1;
            assert(out.deep_view() =~= all.take(i as int));
        }
        assert(all.take(i as int) =~= all);
        records = out;
    }
    records
}

// Rendering.

/// Whether these are the columns of a record, each once, in the order of
/// their characters.
pub open spec fn is_column_order(record: Map<Seq<char>, FieldView>, order: Seq<Seq<char>>) -> bool {
    &&& order.to_set() == record.dom()
    &&& forall|i: int, j: int|
        0 <= i < j < order.len() ==> key_less(
            text_key(#[trigger] order[i]),
            text_key(#[trigger] order[j]),
        )
}

/// The columns of a record in the order of their characters.
pub open spec fn column_order(record: Map<Seq<char>, FieldView>) -> Seq<Seq<char>> {
    record.dom().to_sorted_seq(|a: Seq<char>, b: Seq<char>| !key_less(text_key(b), text_key(a)))
}

/// A value in JSON.
pub open spec fn json_value(value: FieldView) -> Seq<char> {
    match value {
        FieldView::Text(text) => json_string(text),
        FieldView::Number(number) => decimal(number as nat),
        FieldView::Null => "null"@,
    }
}

/// A record as a JSON object on one line.
pub open spec fn json_line(record: Map<Seq<char>, FieldView>) -> Seq<char> {
    let members = column_order(record).map_values(
        |column: Seq<char>| json_string(column) + ":"@ + json_value(record[column]),
    );
    "{"@ + joined(members, ","@) + "}"@
}

/// A record as a JSON object inside a list, a line for each column.
pub open spec fn json_block(record: Map<Seq<char>, FieldView>) -> Seq<char> {
    let members = column_order(record).map_values(
        |column: Seq<char>| "    "@ + json_string(column) + ": "@ + json_value(record[column]),
    );
    if members.len() == 0 {
        "  {}"@
    } else {
        "  {\n"@ + joined(members, ",\n"@) + "\n  }"@
    }
}

/// Records as a JSON list.
pub open spec fn json_pretty(records: Seq<Map<Seq<char>, FieldView>>) -> Seq<char> {
    if records.len() == 0 {
        "[]"@
    } else {
        "[\n"@ + joined(
            records.map_values(|record: Map<Seq<char>, FieldView>| json_block(record)),
            ",\n"@,
        ) + "\n]"@
    }
}

/// Calls `serde_json::to_string` on a `serde_json::Map` with the fields of the
/// record. Claimed: the text is the object on one line, with the columns in
/// order, as such a map keeps its keys sorted unless it is built to keep the
/// order of insertion.
#[verifier::external_body]
fn to_json_line(record: &Record) -> (r: String)
    ensures
        r@ == json_line(record.deep_view()),
{
    let mut map = serde_json::Map::new();
    for (column, value) in &record.fields {
        let value = match value {
            FieldValue::Text(text) => serde_json::Value::from(text.as_str()),
            FieldValue::Number(number) => serde_json::Value::from(*number),
            FieldValue::Null => serde_json::Value::Null,
        };
        map.insert(column.clone(), value);
    }
    serde_json::to_string(&map).unwrap_or_default()
}

/// Calls `serde_json::to_string_pretty` on a list of `serde_json::Map`s with
/// the fields of the records. Claimed: the text is the list of the objects,
/// indented, with the columns in order, as above.
#[verifier::external_body]
fn to_json_pretty(records: &Vec<Record>) -> (r: String)
    ensures
        r@ == json_pretty(records.deep_view()),
{
    let mut list: Vec<serde_json::Map<String, serde_json::Value>> = Vec::new();
    for record in records {
        list.push(record.fields.iter().map(|(column, value)| (column.clone(), match value {
            FieldValue::Text(text) => serde_json::Value::from(text.as_str()),
            FieldValue::Number(number) => serde_json::Value::from(*number),
            FieldValue::Null => serde_json::Value::Null,
        })).collect());
    }
    serde_json::to_string_pretty(&list).unwrap_or_default()
}

/// The text of a column, or nothing.
pub open spec fn text_or_nothing(record: Map<Seq<char>, FieldView>, column: Seq<char>) -> Seq<
    char,
> {
    match column_text(record, column) {
        Some(text) => text,
        None => Seq::empty(),
    }
}

/// Whether a record is that of a matching line.
pub open spec fn is_match_record(record: Map<Seq<char>, FieldView>) -> bool {
    record.dom().contains("path"@) && record.dom().contains("line_number"@)
        && record.dom().contains("line"@)
}

/// A record as text, given its JSON notation: the column that is asked for,
/// or else a matching line, or the path, or the notation.
pub open spec fn record_text(
    record: Map<Seq<char>, FieldView>,
    column: Option<Seq<char>>,
    json: Seq<char>,
) -> Seq<char> {
    if column matches Some(column) && column_text(record, column) is Some {
        column_text(record, column->0)->0
    } else if is_match_record(record) {
        text_or_nothing(record, "path"@) + ":"@ + text_or_nothing(record, "line_number"@) + ":"@
            + text_or_nothing(record, "line"@)
    } else {
        match column_text(record, "path"@) {
            Some(path) => path,
            None => json,
        }
    }
}

fn text_or_empty(record: &Record, column: &str) -> (r: String)
    ensures
        r@ == text_or_nothing(record.deep_view(), column@),
{
    match record.text(column) {
        Some(text) => text,
        None => String::new(),
    }
}

/// A record as text.
pub fn render_text_record(record: &Record, text_column: Option<&str>) -> (r: String)
    ensures
        r@ == record_text(
            record.deep_view(),
            text_column.deep_view(),
            json_line(record.deep_view()),
        ),
{
    if let Some(column) = text_column {
        if let Some(text) = record.text(column) {
            return text;
        }
    }
    if record.get("path").is_some() && record.get("line_number").is_some() && record.get(
        "line",
    ).is_some() {
        let mut out = text_or_empty(record, "path");
        out.append(":");
        out.append(text_or_empty(record, "line_number").as_str());
        out.append(":");
        out.append(text_or_empty(record, "line").as_str());
        return out;
    }
    match record.text("path") {
        Some(path) => path,
        None => to_json_line(record),
    }
}

/// The line of a record, given its JSON notation.
pub open spec fn record_line(
    record: Map<Seq<char>, FieldView>,
    format: OutputFormat,
    column: Option<Seq<char>>,
) -> Seq<char> {
    match format {
        OutputFormat::Text => record_text(record, column, json_line(record)),
        _ => json_line(record),
    }
}

/// The text of the records: one JSON list, or a line for each.
pub open spec fn records_text(
    records: Seq<Map<Seq<char>, FieldView>>,
    format: OutputFormat,
    column: Option<Seq<char>>,
) -> Seq<char> {
    match format {
        OutputFormat::Json => json_pretty(records),
        _ => joined(
            records.map_values(
                |record: Map<Seq<char>, FieldView>| record_line(record, format, column),
            ),
            "\n"@,
        ),
    }
}

/// The text of the records.
pub fn render_records(records: &Vec<Record>, format: OutputFormat, text_column: Option<&str>) -> (r:
    String)
    ensures
        r@ == records_text(records.deep_view(), format, text_column.deep_view()),
{
    if matches!(format, OutputFormat::Json) {
        return to_json_pretty(records);
    }
    let ghost c = text_column.deep_view();
    let ghost all = records.deep_view().map_values(
        |record: Map<Seq<char>, FieldView>| record_line(record, format, c),
    );
    let mut lines: Vec<String> = Vec::new();
    let mut i: usize = 0;
    assert(lines.deep_view() =~= all.take(0));
    while i < records.len()
        invariant
            i <= records.len(),
            lines.deep_view() == all.take(i as int),
        decreases records.len() - i,
    {
        assert(records.deep_view()[i as int] == records[i as int].deep_view());
        let line = match format {
            OutputFormat::Text => render_text_record(&records[i], text_column),
            _ => to_json_line(&records[i]),
        };
        push_item(&mut lines, line);
        i += 1;
        assert(lines.deep_view() =~= all.take(i as int));
    }
    assert(all.take(i as int) =~= all);
    join(&lines, "\n")
}

// Laws.

/// No more records are left than the limit allows.
pub proof fn law_limit_bounds(records: Seq<Map<Seq<char>, FieldView>>, options: OptionsView)
    ensures
        options.limit matches Some(limit) ==> applied(records, options).len() <= limit,
{
}

/// Every record that is left meets the condition, where no columns are
/// selected.
pub proof fn law_left_records_meet(
    records: Seq<Map<Seq<char>, FieldView>>,
    options: OptionsView,
    i: int,
)
    requires
        options.select is None,
        0 <= i < applied(records, options).len(),
    ensures
        options.where_clause matches Some(clause) ==> meets(applied(records, options)[i], clause),
        records.contains(applied(records, options)[i]),
{
    lemma_met(records, options.where_clause);
    let kept = met(records, options.where_clause);
    if let Some(column) = options.sort_by {
        let keys = record_keys(kept, column);
        crate::sorting::law_sorting(keys, false);
        let order = order_of(keys, false);
        assert(0 <= order[i] < kept.len());
        assert(in_order(kept, options.sort_by)[i] == kept[order[i]]);
    }
}

proof fn lemma_met(records: Seq<Map<Seq<char>, FieldView>>, clause: Option<ClauseView>)
    ensures
        forall|i: int|
            0 <= i < met(records, clause).len() ==> (clause matches Some(c) ==> meets(
                #[trigger] met(records, clause)[i],
                c,
            )) && records.contains(met(records, clause)[i]),
    decreases records.len(),
{
    if records.len() > 0 {
        lemma_met(records.drop_last(), clause);
        let all = met(records, clause);
        let before = met(records.drop_last(), clause);
        assert forall|i: int| 0 <= i < all.len() implies (clause matches Some(c) ==> meets(
            #[trigger] all[i],
            c,
        )) && records.contains(all[i]) by {
            if i < before.len() {
                assert(all[i] == before[i]);
                let j = choose|j: int|
                    0 <= j < records.drop_last().len() && records.drop_last()[j] == before[i];
                assert(records[j] == before[i]);
            } else {
                assert(records[records.len() - 1] == all[i]);
            }
        }
    }
}

/// A record with selected columns has exactly those.
pub proof fn law_selection_is_exact(record: Map<Seq<char>, FieldView>, columns: Seq<Seq<char>>)
    ensures
        forall|column: Seq<char>| #[trigger]
            with_columns(record, columns).dom().contains(column) <==> columns.contains(column),
        forall|column: Seq<char>|
            columns.contains(column) ==> #[trigger] with_columns(record, columns)[column] == (
            match value_in(record, column) {
                Some(value) => value,
                None => FieldView::Null,
            }),
    decreases columns.len(),
{
    if columns.len() > 0 {
        law_selection_is_exact(record, columns.drop_last());
        assert forall|column: Seq<char>| columns.contains(column) <==> (columns.drop_last().contains(
            column,
        ) || columns.last() == column) by {
            if columns.contains(column) {
                let i = columns.index_of(column);
                if i < columns.len() - 1 {
                    assert(columns.drop_last()[i] == column);
                }
            }
            if columns.drop_last().contains(column) {
                let i = columns.drop_last().index_of(column);
                assert(columns[i] == column);
            }
            if columns.last() == column {
                assert(columns[columns.len() - 1] == column);
            }
        }
    }
}

proof fn lemma_same_char(a: char, b: char)
    requires
        a as u64 == b as u64,
    ensures
        a == b,
{
}

proof fn lemma_text_key_injective(a: Seq<char>, b: Seq<char>)
    requires
        text_key(a) == text_key(b),
    ensures
        a == b,
{
    assert(a.len() == text_key(a).len() && b.len() == text_key(b).len());
    assert forall|i: int| 0 <= i < a.len() implies a[i] == b[i] by {
        assert(text_key(a)[i] == a[i] as u64);
        assert(text_key(b)[i] == b[i] as u64);
        lemma_same_char(a[i], b[i]);
    }
    assert(a =~= b);
}

proof fn lemma_distinct(columns: Set<Seq<char>>)
    requires
        columns.finite(),
    ensures
        columns.to_seq().no_duplicates(),
    decreases columns.len(),
{
    if columns.len() > 0 {
        let x = columns.choose();
        let rest = columns.remove(x);
        columns.lemma_to_seq_to_set_id();
        rest.lemma_to_seq_to_set_id();
        lemma_distinct(rest);
        let all = columns.to_seq();
        assert(all =~= seq![x] + rest.to_seq());
        assert forall|i: int, j: int| 0 <= i < j < all.len() implies all[i] != all[j] by {
            if i == 0 {
                assert(rest.to_seq().to_set().contains(rest.to_seq()[j - 1]));
            } else {
                assert(all[i] == rest.to_seq()[i - 1] && all[j] == rest.to_seq()[j - 1]);
            }
        }
    }
}

/// The columns of a record in JSON are all of its columns, each once, in the
/// order of their characters.
pub proof fn law_column_order(record: Map<Seq<char>, FieldView>)
    requires
        record.dom().finite(),
    ensures
        is_column_order(record, column_order(record)),
{
    let leq = |a: Seq<char>, b: Seq<char>| !key_less(text_key(b), text_key(a));
    let before = record.dom().to_seq();
    let order = column_order(record);
    assert forall|a: Seq<char>| #[trigger] leq(a, a) by {
        lemma_less_irreflexive(text_key(a));
    }
    assert forall|a: Seq<char>, b: Seq<char>| #[trigger] leq(a, b) && #[trigger] leq(
        b,
        a,
    ) implies a == b by {
        lemma_less_total(text_key(a), text_key(b));
        lemma_text_key_injective(a, b);
    }
    assert forall|a: Seq<char>, b: Seq<char>, c: Seq<char>| #[trigger] leq(a, b) && #[trigger] leq(
        b,
        c,
    ) implies leq(a, c) by {
        lemma_order_transitive(text_key(a), text_key(b), text_key(c), false);
    }
    assert forall|a: Seq<char>, b: Seq<char>| #[trigger] leq(a, b) || #[trigger] leq(b, a) by {
        if key_less(text_key(b), text_key(a)) && key_less(text_key(a), text_key(b)) {
            lemma_less_transitive(text_key(a), text_key(b), text_key(a));
            lemma_less_irreflexive(text_key(a));
        }
    }
    before.lemma_sort_by_ensures(leq);
    record.dom().lemma_to_seq_to_set_id();
    lemma_distinct(record.dom());
    before.lemma_multiset_has_no_duplicates();
    order.lemma_multiset_has_no_duplicates_conv();
    assert forall|i: int, j: int| 0 <= i < j < order.len() implies key_less(
        text_key(#[trigger] order[i]),
        text_key(#[trigger] order[j]),
    ) by {
        assert(leq(order[i], order[j]));
        lemma_less_total(text_key(order[i]), text_key(order[j]));
        if text_key(order[i]) == text_key(order[j]) {
            lemma_text_key_injective(order[i], order[j]);
        }
    }
    assert forall|x: Seq<char>| order.to_set().contains(x) <==> record.dom().contains(x) by {
        broadcast use vstd::seq_lib::group_to_multiset_ensures;
        assert(before.to_set().contains(x) <==> before.contains(x));
        assert(order.to_set().contains(x) <==> order.contains(x));
        assert(before.contains(x) <==> before.to_multiset().count(x) > 0);
        assert(order.contains(x) <==> order.to_multiset().count(x) > 0);
    }
    assert(order.to_set() =~= record.dom());
}

} // verus!
