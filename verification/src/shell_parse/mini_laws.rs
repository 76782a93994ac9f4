//! What conditions and scripts mean, whatever their texts are.
use super::mini::{
    and_of, binary_sides, close_from, close_of, condition_of, keyword_start, not_of, operator_at,
    operator_from, or_of, test_of, test_scan, unwrapped,
};
use super::reading_laws::{bare, law_plain_word, law_quoted_word, spelled};
use super::operation::{BranchView, ConditionView, TestPathType};
use super::words::{quote_after, words_of};
use crate::integrations::execution::{
    run_branches, run_condition, AnswerView, BranchRun, ConditionRun, PathKind,
};
use crate::text::{occurs_at, starts_char, trimmed, whitespace};
use crate::text_laws::{law_tight, law_trim, law_trimmed, tight};
use vstd::prelude::*;
use vstd::string::*;

verus! {

// Truth.

/// Whether a condition holds in a world that tells what is at each path.
pub open spec fn holds(condition: ConditionView, world: spec_fn(Seq<char>) -> Option<PathKind>) -> bool
    decreases condition,
{
    match condition {
        ConditionView::TestPath { path, path_type } => match world(path) {
            Some(kind) => match path_type {
                TestPathType::Any => true,
                TestPathType::Leaf => kind.is_file,
                TestPathType::Container => kind.is_dir,
            },
            None => false,
        },
        ConditionView::Not(inner) => !holds(*inner, world),
        ConditionView::And(a, b) => holds(*a, world) && holds(*b, world),
        ConditionView::Or(a, b) => holds(*a, world) || holds(*b, world),
    }
}

/// Whether the answers from `at` on tell what is in the world, each to the
/// question that was open before it.
pub open spec fn truthful(
    condition: ConditionView,
    answers: Seq<AnswerView>,
    at: nat,
    world: spec_fn(Seq<char>) -> Option<PathKind>,
) -> bool {
    forall|k: int|
        at <= k < answers.len() ==> (run_condition(condition, #[trigger] answers.take(k), at)
            matches ConditionRun::Ask(path) ==> answers[k] == AnswerView::Found(world(path)))
}

#[verifier::rlimit(40)]
proof fn lemma_decided_early(condition: ConditionView, answers: Seq<AnswerView>, at: nat, k: int)
    requires
        at <= answers.len(),
        run_condition(condition, answers, at) matches ConditionRun::Done(_, next) && next <= k,
        k <= answers.len(),
    ensures
        run_condition(condition, answers.take(k), at) == run_condition(condition, answers, at),
        run_condition(condition, answers, at)->Done_1 >= at,
        run_condition(condition, answers, at)->Done_1 <= answers.len(),
    decreases condition,
{
    let some = answers.take(k);
    match condition {
        ConditionView::TestPath { path, path_type } => {
            assert(at < answers.len());
            assert(some[at as int] == answers[at as int]);
        },
        ConditionView::Not(inner) => {
            lemma_decided_early(*inner, answers, at, k);
        },
        ConditionView::And(left, right) => {
            lemma_next_grows(*left, answers, at);
            if let ConditionRun::Done(true, next) = run_condition(*left, answers, at) {
                lemma_next_grows(*right, answers, next);
                lemma_decided_early(*left, answers, at, k);
                lemma_decided_early(*right, answers, next, k);
            } else {
                lemma_decided_early(*left, answers, at, k);
            }
        },
        ConditionView::Or(left, right) => {
            lemma_next_grows(*left, answers, at);
            if let ConditionRun::Done(false, next) = run_condition(*left, answers, at) {
                lemma_next_grows(*right, answers, next);
                lemma_decided_early(*left, answers, at, k);
                lemma_decided_early(*right, answers, next, k);
            } else {
                lemma_decided_early(*left, answers, at, k);
            }
        },
    }
}

proof fn lemma_next_grows(condition: ConditionView, answers: Seq<AnswerView>, at: nat)
    requires
        at <= answers.len(),
    ensures
        run_condition(condition, answers, at) matches ConditionRun::Done(_, next) ==> at <= next
            <= answers.len(),
    decreases condition,
{
    match condition {
        ConditionView::TestPath { path, path_type } => {},
        ConditionView::Not(inner) => {
            lemma_next_grows(*inner, answers, at);
        },
        ConditionView::And(left, right) => {
            lemma_next_grows(*left, answers, at);
            if let ConditionRun::Done(true, next) = run_condition(*left, answers, at) {
                lemma_next_grows(*right, answers, next);
            }
        },
        ConditionView::Or(left, right) => {
            lemma_next_grows(*left, answers, at);
            if let ConditionRun::Done(false, next) = run_condition(*left, answers, at) {
                lemma_next_grows(*right, answers, next);
            }
        },
    }
}

/// With truthful answers a condition is decided as it is in the world: a test
/// holds where something is at its path that is of its type, a negation where
/// what it negates does not hold, a conjunction where both halves hold, and a
/// disjunction where one does.
#[verifier::rlimit(40)]
pub proof fn law_decided_by_the_world(
    condition: ConditionView,
    answers: Seq<AnswerView>,
    at: nat,
    world: spec_fn(Seq<char>) -> Option<PathKind>,
)
    requires
        at <= answers.len(),
        truthful(condition, answers, at, world),
    ensures
        run_condition(condition, answers, at) matches ConditionRun::Done(truth, _) ==> truth
            == holds(condition, world),
        !(run_condition(condition, answers, at) is Failed),
    decreases condition,
{
    match condition {
        ConditionView::TestPath { path, path_type } => {
            if at < answers.len() {
                let before = answers.take(at as int);
                assert(run_condition(condition, before, at) == ConditionRun::Ask(path));
            }
        },
        ConditionView::Not(inner) => {
            assert(truthful(*inner, answers, at, world)) by {
                assert forall|k: int| at <= k < answers.len() implies (run_condition(
                    *inner,
                    #[trigger] answers.take(k),
                    at,
                ) matches ConditionRun::Ask(path) ==> answers[k] == AnswerView::Found(
                    world(path),
                )) by {
                    assert(run_condition(*inner, answers.take(k), at) is Ask ==> run_condition(
                        condition,
                        answers.take(k),
                        at,
                    ) == run_condition(*inner, answers.take(k), at));
                }
            }
            law_decided_by_the_world(*inner, answers, at, world);
        },
        ConditionView::And(left, right) => {
            lemma_halves(condition, *left, *right, true, answers, at, world);
        },
        ConditionView::Or(left, right) => {
            lemma_halves(condition, *left, *right, false, answers, at, world);
        },
    }
}

#[verifier::rlimit(40)]
proof fn lemma_halves(
    condition: ConditionView,
    left: ConditionView,
    right: ConditionView,
    both: bool,
    answers: Seq<AnswerView>,
    at: nat,
    world: spec_fn(Seq<char>) -> Option<PathKind>,
)
    requires
        at <= answers.len(),
        truthful(condition, answers, at, world),
        both ==> condition == ConditionView::And(Box::new(left), Box::new(right)),
        !both ==> condition == ConditionView::Or(Box::new(left), Box::new(right)),
    ensures
        run_condition(condition, answers, at) matches ConditionRun::Done(truth, _) ==> truth
            == holds(condition, world),
        !(run_condition(condition, answers, at) is Failed),
    decreases condition, 0nat,
{
    assert(decreases_to!(condition => left));
    assert(decreases_to!(condition => right));
    assert(truthful(left, answers, at, world)) by {
        assert forall|k: int| at <= k < answers.len() implies (run_condition(
            left,
            #[trigger] answers.take(k),
            at,
        ) matches ConditionRun::Ask(path) ==> answers[k] == AnswerView::Found(world(path))) by {
            assert(run_condition(left, answers.take(k), at) is Ask ==> run_condition(
                condition,
                answers.take(k),
                at,
            ) == run_condition(left, answers.take(k), at));
        }
    }
    law_decided_by_the_world(left, answers, at, world);
    lemma_next_grows(left, answers, at);
    if let ConditionRun::Done(truth, next) = run_condition(left, answers, at) {
        if truth == both {
            assert(truthful(right, answers, next, world)) by {
                assert forall|k: int| next <= k < answers.len() implies (run_condition(
                    right,
                    #[trigger] answers.take(k),
                    next,
                ) matches ConditionRun::Ask(path) ==> answers[k] == AnswerView::Found(
                    world(path),
                )) by {
                    lemma_decided_early(left, answers, at, k);
                    assert(run_condition(condition, answers.take(k), at) == run_condition(
                        right,
                        answers.take(k),
                        next,
                    ));
                }
            }
            law_decided_by_the_world(right, answers, next, world);
        }
    }
}

// Texts of conditions.

/// How deep in parentheses a text ends, and in which quote, when it is read
/// from a depth and a quote; none where it closes more than it opened.
pub open spec fn depth_after(s: Seq<char>, depth: nat, quote: Option<char>) -> Option<
    (nat, Option<char>),
>
    decreases s.len(),
{
    if s.len() == 0 {
        Some((depth, quote))
    } else if s[0] == '\'' || s[0] == '"' || quote is Some {
        depth_after(s.skip(1), depth, quote_after(quote, s[0]))
    } else if s[0] == '(' {
        depth_after(s.skip(1), depth + 1, quote)
    } else if s[0] == ')' {
        if depth == 0 {
            None
        } else {
            depth_after(s.skip(1), (depth - 1) as nat, quote)
        }
    } else {
        depth_after(s.skip(1), depth, quote)
    }
}

/// Whether a text closes all its parentheses and quotes, and has no white
/// space at its ends.
pub open spec fn whole(s: Seq<char>) -> bool {
    s.len() > 0 && tight(s) && depth_after(s, 0, None) == Some((0nat, None::<char>))
}

proof fn lemma_close_skips(s: Seq<char>, i: int, part: Seq<char>, depth: nat, quote: Option<char>)
    requires
        0 <= i,
        occurs_at(s, part, i),
        depth_after(part, depth, quote) is Some,
    ensures
        close_from(s, i, '(', ')', depth + 1, quote) == close_from(
            s,
            i + part.len(),
            '(',
            ')',
            (depth_after(part, depth, quote)->0).0 + 1,
            (depth_after(part, depth, quote)->0).1,
        ),
    decreases part.len(),
{
    if part.len() > 0 {
        let c = part[0];
        assert(s.subrange(i, i + part.len())[0] == s[i]);
        let rest = part.skip(1);
        assert(s.subrange(i + 1, i + 1 + rest.len()) =~= s.subrange(i, i + part.len()).skip(1));
        if c == '\'' || c == '"' || quote is Some {
            lemma_close_skips(s, i + 1, rest, depth, quote_after(quote, c));
        } else if c == '(' {
            lemma_close_skips(s, i + 1, rest, depth + 1, quote);
        } else if c == ')' {
            lemma_close_skips(s, i + 1, rest, (depth - 1) as nat, quote);
        } else {
            lemma_close_skips(s, i + 1, rest, depth, quote);
        }
    }
}

proof fn lemma_operator_skips(
    s: Seq<char>,
    i: int,
    part: Seq<char>,
    operator: Seq<char>,
    depth: nat,
    quote: Option<char>,
)
    requires
        0 <= i,
        occurs_at(s, part, i),
        depth_after(part, depth, quote) is Some,
    ensures
        operator_from(s, i, operator, depth + 1, quote) == operator_from(
            s,
            i + part.len(),
            operator,
            (depth_after(part, depth, quote)->0).0 + 1,
            (depth_after(part, depth, quote)->0).1,
        ),
    decreases part.len(),
{
    if part.len() > 0 {
        let c = part[0];
        assert(s.subrange(i, i + part.len())[0] == s[i]);
        let rest = part.skip(1);
        assert(s.subrange(i + 1, i + 1 + rest.len()) =~= s.subrange(i, i + part.len()).skip(1));
        if c == '\'' || c == '"' || quote is Some {
            lemma_operator_skips(s, i + 1, rest, operator, depth, quote_after(quote, c));
        } else if c == '(' {
            lemma_operator_skips(s, i + 1, rest, operator, depth + 1, quote);
        } else if c == ')' {
            lemma_operator_skips(s, i + 1, rest, operator, (depth - 1) as nat, quote);
        } else {
            lemma_operator_skips(s, i + 1, rest, operator, depth, quote);
        }
    }
}

/// A text in parentheses.
pub open spec fn wrapped(s: Seq<char>) -> Seq<char> {
    seq!['('] + s + seq![')']
}

proof fn lemma_wrapped(s: Seq<char>)
    requires
        whole(s),
    ensures
        unwrapped(wrapped(s)) == unwrapped(s),
        trimmed(wrapped(s)) == wrapped(s),
{
    let w = wrapped(s);
    law_tight(w);
    assert(w.subrange(1, 1 + s.len() as int) =~= s);
    lemma_close_skips(w, 1, s, 0, None);
    let end = 1 + s.len() as int;
    assert(w[end] == ')');
    assert(close_from(w, end, '(', ')', 1, None) == Some(end));
    assert(w[0] == '(');
    assert(close_of(w, 0, '(', ')') == Some(end));
    assert(w.subrange(1, w.len() - 1) =~= s);
}

/// Two texts in parentheses with an operator between them.
pub open spec fn between(l: Seq<char>, operator: Seq<char>, r: Seq<char>) -> Seq<char> {
    wrapped(l) + seq![' '] + operator + seq![' '] + wrapped(r)
}

#[verifier::rlimit(40)]
proof fn lemma_between(l: Seq<char>, operator: Seq<char>, r: Seq<char>)
    requires
        whole(l),
        whole(r),
        operator.len() > 1,
        operator[0] == '-',
        forall|i: int|
            0 <= i < operator.len() ==> !whitespace(#[trigger] operator[i]) && operator[i] != '('
                && operator[i] != ')' && operator[i] != '"' && operator[i] != '\'',
    ensures
        trimmed(between(l, operator, r)) == between(l, operator, r),
        unwrapped(between(l, operator, r)) == between(l, operator, r),
        operator_from(between(l, operator, r), 0, operator, 0, None) == Some(l.len() as int + 3),
        trimmed(between(l, operator, r).take(l.len() as int + 3)) == wrapped(l),
        trimmed(between(l, operator, r).skip(l.len() as int + 3 + operator.len())) == wrapped(r),
{
    let s = between(l, operator, r);
    let n = l.len() as int;
    law_tight(s);
    assert(s[0] == '(');
    assert(s[n + 1] == ')');
    assert(s[n + 2] == ' ');
    assert(s[n + 3] == '-') by {
        assert(s[n + 3] == operator[0]);
    }
    assert(s.subrange(1, 1 + n) =~= l);
    lemma_close_skips(s, 1, l, 0, None);
    assert(close_of(s, 0, '(', ')') == Some(n + 1));
    assert(unwrapped(s) == s);
    lemma_operator_skips(s, 1, l, operator, 0, None);
    assert(s.subrange(n + 3, n + 3 + operator.len()) =~= operator);
    assert(s[n + 3 + operator.len()] == ' ');
    assert(operator_at(s, n + 3, operator));
    assert(!occurs_at(s, operator, n + 2)) by {
        if occurs_at(s, operator, n + 2) {
            assert(s.subrange(n + 2, n + 2 + operator.len())[0] == s[n + 2]);
        }
    }
    assert(operator_from(s, n + 3, operator, 0, None) == Some(n + 3));
    assert(operator_from(s, n + 2, operator, 0, None) == Some(n + 3));
    assert(operator_from(s, n + 1, operator, 1, None) == Some(n + 3));
    assert(operator_from(s, 0, operator, 0, None) == operator_from(s, 1, operator, 1, None));
    let e = Seq::<char>::empty();
    assert(s.take(n + 3) =~= e + wrapped(l) + seq![' ']);
    law_trim(e, wrapped(l), seq![' ']);
    assert(s.skip(n + 3 + operator.len()) =~= seq![' '] + wrapped(r) + e);
    law_trim(seq![' '], wrapped(r), e);
}

#[verifier::rlimit(40)]
proof fn lemma_no_other_operator(
    l: Seq<char>,
    operator: Seq<char>,
    r: Seq<char>,
    other: Seq<char>,
)
    requires
        whole(l),
        whole(r),
        operator.len() > 1,
        operator[0] == '-',
        other.len() > 1,
        other[0] == '-',
        other[1] != operator[1],
        forall|i: int|
            0 <= i < operator.len() ==> !whitespace(#[trigger] operator[i]) && operator[i] != '('
                && operator[i] != ')' && operator[i] != '"' && operator[i] != '\'',
        forall|i: int| 0 < i < operator.len() ==> #[trigger] operator[i] != '-',
    ensures
        operator_from(between(l, operator, r), 0, other, 0, None) is None,
{
    let s = between(l, operator, r);
    let n = l.len() as int;
    let m = operator.len() as int;
    assert(s[0] == '(');
    assert(s[n + 1] == ')');
    assert(s.subrange(1, 1 + n) =~= l);
    lemma_operator_skips(s, 1, l, other, 0, None);
    let at = n + 4 + m;
    assert(s[at] == '(');
    assert(s.subrange(at + 1, at + 1 + r.len()) =~= r);
    lemma_operator_skips(s, at + 1, r, other, 0, None);
    let end = at + 1 + r.len();
    assert(s[end] == ')');
    assert(end + 1 == s.len());
    assert(operator_from(s, end + 1, other, 0, None) is None);
    assert(operator_from(s, end, other, 1, None) is None);
    assert(operator_from(s, at, other, 0, None) is None);
    assert forall|k: int| n + 2 <= k < at implies !#[trigger] occurs_at(s, other, k) && s[k]
        != '\'' && s[k] != '"' && s[k] != '(' && s[k] != ')' by {
        if n + 3 <= k < n + 3 + m {
            assert(s[k] == operator[k - n - 3]);
        } else {
            assert(s[k] == ' ');
        }
        if occurs_at(s, other, k) {
            assert(s.subrange(k, k + other.len())[0] == s[k]);
            assert(s.subrange(k, k + other.len())[1] == s[k + 1]);
            if k == n + 3 {
                assert(s[k + 1] == operator[1]);
            }
        }
    }
    lemma_nothing_between(s, n + 2, at, other);
    assert(operator_from(s, n + 1, other, 1, None) is None);
    assert(operator_from(s, 0, other, 0, None) == operator_from(s, 1, other, 1, None));
}

proof fn lemma_nothing_between(s: Seq<char>, i: int, at: int, other: Seq<char>)
    requires
        0 <= i <= at <= s.len(),
        forall|k: int|
            i <= k < at ==> !#[trigger] occurs_at(s, other, k) && s[k] != '\'' && s[k] != '"'
                && s[k] != '(' && s[k] != ')',
        operator_from(s, at, other, 0, None) is None,
    ensures
        operator_from(s, i, other, 0, None) is None,
    decreases at - i,
{
    if i < at {
        assert(!occurs_at(s, other, i));
        lemma_nothing_between(s, i + 1, at, other);
    }
}

proof fn lemma_unwrapped_again(s: Seq<char>)
    ensures
        tight(unwrapped(s)),
        unwrapped(unwrapped(s)) == unwrapped(s),
        unwrapped(trimmed(s)) == unwrapped(s),
        unwrapped(s).len() <= s.len(),
    decreases s.len(),
{
    let current = trimmed(s);
    law_trimmed(s);
    law_tight(current);
    let (a, b) = choose|a: Seq<char>, b: Seq<char>|
        crate::text_laws::blank(a) && crate::text_laws::blank(b) && s == #[trigger] (a + current
            + b);
    assert(current.len() <= s.len());
    if starts_char(current, '(') && close_of(current, 0, '(', ')') == Some(current.len() - 1)
        && current.len() >= 2 {
        lemma_unwrapped_again(current.subrange(1, current.len() - 1));
    }
}

proof fn lemma_readings_of_wrapped(s: Seq<char>, variables: Seq<(Seq<char>, Seq<char>)>)
    requires
        whole(s),
    ensures
        not_of(wrapped(s), variables) == not_of(s, variables),
        and_of(wrapped(s), variables) == and_of(s, variables),
        condition_of(wrapped(s), variables) == condition_of(s, variables),
{
    lemma_wrapped(s);
    lemma_same_readings(wrapped(s), s, variables);
}

/// Two texts that are the same once unwrapped are read as the same.
proof fn lemma_same_readings(a: Seq<char>, b: Seq<char>, variables: Seq<(Seq<char>, Seq<char>)>)
    requires
        unwrapped(a) == unwrapped(b),
    ensures
        not_of(a, variables) == not_of(b, variables),
        and_of(a, variables) == and_of(b, variables),
        or_of(a, variables) == or_of(b, variables),
        condition_of(a, variables) == condition_of(b, variables),
{
    lemma_unwrapped_again(a);
    lemma_unwrapped_again(b);
    reveal_strlit("-and");
    reveal_strlit("-or");
    reveal_strlit("-not");
    assert(binary_sides(a, "-and"@) == binary_sides(b, "-and"@));
    assert(binary_sides(a, "-or"@) == binary_sides(b, "-or"@));
    lemma_shorter(a, "-and"@);
    lemma_shorter(b, "-and"@);
    lemma_shorter(a, "-or"@);
    lemma_shorter(b, "-or"@);
    let t = unwrapped(a);
    if starts_char(t, '!') {
    } else if keyword_start(t, "-not"@) {
        law_tight(t);
        law_trimmed(t.skip(4));
        let inner = trimmed(t.skip(4));
        let (x, y) = choose|x: Seq<char>, y: Seq<char>|
            crate::text_laws::blank(x) && crate::text_laws::blank(y) && t.skip(4) == #[trigger] (x
                + inner + y);
        assert(inner.len() <= t.skip(4).len());
    }
}

proof fn lemma_shorter(condition: Seq<char>, operator: Seq<char>)
    requires
        operator.len() > 0,
    ensures
        binary_sides(condition, operator) matches Some((left, right)) ==> left.len()
            < condition.len() && right.len() < condition.len(),
{
    let s = unwrapped(trimmed(condition));
    lemma_unwrapped_again(condition);
    if let Some(i) = operator_from(s, 0, operator, 0, None) {
        lemma_operator_place(s, 0, operator, 0, None);
        lemma_trim_shorter(s.take(i));
        lemma_trim_shorter(s.skip(i + operator.len()));
    }
}

proof fn lemma_trim_shorter(s: Seq<char>)
    ensures
        trimmed(s).len() <= s.len(),
{
    law_trimmed(s);
    let t = trimmed(s);
    let (a, b) = choose|a: Seq<char>, b: Seq<char>|
        crate::text_laws::blank(a) && crate::text_laws::blank(b) && s == #[trigger] (a + t + b);
    assert(t.len() <= s.len());
}

proof fn lemma_operator_place(
    s: Seq<char>,
    i: int,
    operator: Seq<char>,
    depth: nat,
    quote: Option<char>,
)
    requires
        0 <= i,
    ensures
        operator_from(s, i, operator, depth, quote) matches Some(j) ==> i <= j < s.len()
            && operator_at(s, j, operator),
    decreases s.len() - i,
{
    if i < s.len() {
        let c = s[i];
        if c == '\'' || c == '"' || quote is Some {
            lemma_operator_place(s, i + 1, operator, depth, quote_after(quote, c));
        } else if c == '(' {
            lemma_operator_place(s, i + 1, operator, depth + 1, quote);
        } else if c == ')' {
            lemma_operator_place(
                s,
                i + 1,
                operator,
                if depth == 0 {
                    0
                } else {
                    (depth - 1) as nat
                },
                quote,
            );
        } else if depth == 0 && operator_at(s, i, operator) {
        } else {
            lemma_operator_place(s, i + 1, operator, depth, quote);
        }
    }
}

/// Whether a condition is a test or a negation.
pub open spec fn is_simple(condition: ConditionView) -> bool {
    condition is TestPath || condition is Not
}

proof fn lemma_simple(s: Seq<char>, variables: Seq<(Seq<char>, Seq<char>)>, a: ConditionView)
    requires
        condition_of(s, variables) == Some(a),
    ensures
        is_simple(a) ==> not_of(s, variables) == Some(a) && and_of(s, variables) == Some(a),
        a is And ==> and_of(s, variables) == Some(a),
        or_of(s, variables) == Some(a),
{
    lemma_unwrapped_again(s);
    let u = unwrapped(trimmed(s));
    assert(unwrapped(u) == unwrapped(s));
    lemma_same_readings(u, s, variables);
}

/// Two conditions in parentheses with a word for "and" between them hold
/// exactly where both hold.
pub proof fn law_and(
    l: Seq<char>,
    r: Seq<char>,
    variables: Seq<(Seq<char>, Seq<char>)>,
    a: ConditionView,
    b: ConditionView,
    world: spec_fn(Seq<char>) -> Option<PathKind>,
)
    requires
        whole(l),
        whole(r),
        condition_of(l, variables) == Some(a),
        condition_of(r, variables) == Some(b),
        is_simple(a) || a is And,
        is_simple(b),
    ensures
        condition_of(between(l, "-and"@, r), variables) matches Some(c) && (holds(c, world) <==> (
        holds(a, world) && holds(b, world))),
{
    reveal_strlit("-and");
    reveal_strlit("-or");
    lemma_simple(l, variables, a);
    lemma_simple(r, variables, b);
    lemma_between(l, "-and"@, r);
    lemma_no_other_operator(l, "-and"@, r, "-or"@);
    lemma_readings_of_wrapped(l, variables);
    lemma_readings_of_wrapped(r, variables);
    let s = between(l, "-and"@, r);
    assert(binary_sides(s, "-or"@) is None);
    assert(binary_sides(s, "-and"@) == Some((wrapped(l), wrapped(r))));
    assert(wrapped(l).len() < s.len());
    assert(and_of(s, variables) == Some(ConditionView::And(Box::new(a), Box::new(b))));
    assert(or_of(s, variables) == Some(ConditionView::And(Box::new(a), Box::new(b))));
}

/// Two conditions in parentheses with a word for "or" between them hold
/// exactly where one of them holds.
pub proof fn law_or(
    l: Seq<char>,
    r: Seq<char>,
    variables: Seq<(Seq<char>, Seq<char>)>,
    a: ConditionView,
    b: ConditionView,
    world: spec_fn(Seq<char>) -> Option<PathKind>,
)
    requires
        whole(l),
        whole(r),
        condition_of(l, variables) == Some(a),
        condition_of(r, variables) == Some(b),
        is_simple(b) || b is And,
    ensures
        condition_of(between(l, "-or"@, r), variables) matches Some(c) && (holds(c, world) <==> (
        holds(a, world) || holds(b, world))),
{
    reveal_strlit("-or");
    lemma_simple(l, variables, a);
    lemma_simple(r, variables, b);
    lemma_between(l, "-or"@, r);
    lemma_readings_of_wrapped(l, variables);
    lemma_readings_of_wrapped(r, variables);
    lemma_wrapped(l);
    lemma_same_readings(wrapped(l), l, variables);
    let s = between(l, "-or"@, r);
    assert(binary_sides(s, "-or"@) == Some((wrapped(l), wrapped(r))));
    assert(wrapped(l).len() < s.len());
    assert(or_of(s, variables) == Some(ConditionView::Or(Box::new(a), Box::new(b))));
}

/// A condition behind an exclamation mark, or in parentheses behind the word
/// for "not", holds exactly where it does not hold by itself.
pub proof fn law_not(
    l: Seq<char>,
    variables: Seq<(Seq<char>, Seq<char>)>,
    a: ConditionView,
    world: spec_fn(Seq<char>) -> Option<PathKind>,
)
    requires
        whole(l),
        condition_of(l, variables) == Some(a),
        is_simple(a),
    ensures
        not_of(seq!['!'] + wrapped(l), variables) matches Some(c) && (holds(c, world) <==> !holds(
            a,
            world,
        )),
        not_of("-not"@ + seq![' '] + wrapped(l), variables) matches Some(c) && (holds(c, world)
            <==> !holds(a, world)),
{
    lemma_simple(l, variables, a);
    lemma_readings_of_wrapped(l, variables);
    reveal_strlit("-not");
    let w = wrapped(l);
    let s = seq!['!'] + w;
    law_tight(s);
    assert(unwrapped(s) == s);
    assert(s.skip(1) =~= w);
    assert(not_of(s, variables) == Some(ConditionView::Not(Box::new(a))));
    let t = "-not"@ + seq![' '] + w;
    law_tight(t);
    assert(unwrapped(t) == t);
    assert(t.take(4) =~= "-not"@);
    assert(t[4] == ' ');
    let e = Seq::<char>::empty();
    assert(t.skip(4) =~= seq![' '] + w + e);
    law_trim(seq![' '], w, e);
    assert(keyword_start(t, "-not"@));
    assert(not_of(t, variables) == Some(ConditionView::Not(Box::new(a))));
}

// Branches.

/// Whether a branch is taken in a world: its condition holds, or it has none.
pub open spec fn taken(branch: BranchView, world: spec_fn(Seq<char>) -> Option<PathKind>) -> bool {
    match branch.condition {
        Some(condition) => holds(condition, world),
        None => true,
    }
}

/// Whether the answers tell what is in the world, each to the question that
/// was open before it, while a branch is chosen.
pub open spec fn truthful_choice(
    branches: Seq<BranchView>,
    i: nat,
    answers: Seq<AnswerView>,
    at: nat,
    world: spec_fn(Seq<char>) -> Option<PathKind>,
) -> bool {
    forall|k: int|
        at <= k < answers.len() ==> (run_branches(branches, i, #[trigger] answers.take(k), at)
            matches BranchRun::Ask(path) ==> answers[k] == AnswerView::Found(world(path)))
}

/// With truthful answers the branch that runs is the first one that is taken:
/// none before it is, and where no branch runs none is.
#[verifier::rlimit(40)]
pub proof fn law_first_branch_runs(
    branches: Seq<BranchView>,
    i: nat,
    answers: Seq<AnswerView>,
    at: nat,
    world: spec_fn(Seq<char>) -> Option<PathKind>,
)
    requires
        at <= answers.len(),
        truthful_choice(branches, i, answers, at, world),
    ensures
        run_branches(branches, i, answers, at) matches BranchRun::Done(Some(chosen), _) ==> i
            <= chosen < branches.len() && taken(branches[chosen], world) && forall|j: int|
            i <= j < chosen ==> !taken(#[trigger] branches[j], world),
        run_branches(branches, i, answers, at) matches BranchRun::Done(None, _) ==> forall|j: int|
            i <= j < branches.len() ==> !taken(#[trigger] branches[j], world),
        !(run_branches(branches, i, answers, at) is Failed),
    decreases branches.len() - i,
{
    if i < branches.len() {
        if let Some(condition) = branches[i as int].condition {
            assert(truthful(condition, answers, at, world)) by {
                assert forall|k: int| at <= k < answers.len() implies (run_condition(
                    condition,
                    #[trigger] answers.take(k),
                    at,
                ) matches ConditionRun::Ask(path) ==> answers[k] == AnswerView::Found(
                    world(path),
                )) by {
                    if let ConditionRun::Ask(path) = run_condition(
                        condition,
                        answers.take(k),
                        at,
                    ) {
                        assert(run_branches(branches, i, answers.take(k), at) == BranchRun::Ask(
                            path,
                        ));
                    }
                }
            }
            law_decided_by_the_world(condition, answers, at, world);
            lemma_next_grows(condition, answers, at);
            if let ConditionRun::Done(false, next) = run_condition(condition, answers, at) {
                assert(truthful_choice(branches, i + 1, answers, next, world)) by {
                    assert forall|k: int| next <= k < answers.len() implies (run_branches(
                        branches,
                        i + 1,
                        #[trigger] answers.take(k),
                        next,
                    ) matches BranchRun::Ask(path) ==> answers[k] == AnswerView::Found(
                        world(path),
                    )) by {
                        lemma_decided_early(condition, answers, at, k);
                        assert(run_branches(branches, i, answers.take(k), at) == run_branches(
                            branches,
                            i + 1,
                            answers.take(k),
                            next,
                        ));
                    }
                }
                law_first_branch_runs(branches, i + 1, answers, next, world);
            }
        }
    }
}

// Texts of tests.

proof fn lemma_depth_of_plain(s: Seq<char>, depth: nat, rest: Seq<char>)
    requires
        forall|i: int|
            0 <= i < s.len() ==> #[trigger] s[i] != '"' && s[i] != '\'' && s[i] != '(' && s[i]
                != ')',
    ensures
        depth_after(s + rest, depth, None) == depth_after(rest, depth, None),
    decreases s.len(),
{
    if s.len() == 0 {
        assert(s + rest =~= rest);
    } else {
        let all = s + rest;
        assert(all[0] == s[0]);
        assert(all.skip(1) =~= s.skip(1) + rest);
        assert forall|i: int| 0 <= i < s.skip(1).len() implies #[trigger] s.skip(1)[i] != '"'
            && s.skip(1)[i] != '\'' && s.skip(1)[i] != '(' && s.skip(1)[i] != ')' by {
            assert(s.skip(1)[i] == s[i + 1]);
        }
        lemma_depth_of_plain(s.skip(1), depth, rest);
    }
}

proof fn lemma_depth_in_quotes(s: Seq<char>, depth: nat, rest: Seq<char>)
    requires
        !s.contains('"'),
    ensures
        depth_after(s + seq!['"'] + rest, depth, Some('"')) == depth_after(rest, depth, None),
    decreases s.len(),
{
    let all = s + seq!['"'] + rest;
    if s.len() == 0 {
        assert(all[0] == '"');
        assert(all.skip(1) =~= rest);
    } else {
        assert(s.contains(s[0]));
        assert(all[0] == s[0]);
        assert(all.skip(1) =~= s.skip(1) + seq!['"'] + rest);
        assert(!s.skip(1).contains('"')) by {
            if s.skip(1).contains('"') {
                let i = s.skip(1).index_of('"');
                assert(s[i + 1] == '"');
            }
        }
        lemma_depth_in_quotes(s.skip(1), depth, rest);
    }
}

/// Whether a path can be tested as it stands: it is not empty, does not start
/// with a dash, and holds no double quotes, wildcards or signs of variables.
pub open spec fn plain_path(path: Seq<char>) -> bool {
    &&& path.len() > 0
    &&& path[0] != '-'
    &&& forall|i: int|
        0 <= i < path.len() ==> {
            let c = #[trigger] path[i];
            &&& c != '"' && c != '$' && c != '`' && c != '\n' && c != '\r'
            &&& c != '*' && c != '?' && c != '[' && c != ']'
        }
}

/// Whether a word is the name of the test, in any case.
pub open spec fn is_test_name(name: Seq<char>) -> bool {
    spelled(name, "test-path"@) && bare(name)
}

/// The text of a test of a path.
pub open spec fn test_text(name: Seq<char>, path: Seq<char>) -> Seq<char> {
    name + seq![' ', '"'] + path + seq!['"']
}

#[verifier::rlimit(40)]
proof fn lemma_plain_path(path: Seq<char>, variables: Seq<(Seq<char>, Seq<char>)>)
    requires
        plain_path(path),
    ensures
        !path.contains('"'),
        super::mini::resolved_value(variables, path) == Some(path),
        !super::mini::has_wildcard(path),
        !super::arguments::path_option(crate::case::ascii_lowercase(path)),
        !super::arguments::path_colon_option(crate::case::ascii_lowercase(path)),
        crate::case::ascii_lowercase(path) != "-pathtype"@,
        !starts_char(crate::case::ascii_lowercase(path), '-'),
{
    let t = crate::case::ascii_lowercase(path);
    assert(t[0] == crate::case::ascii_lower(path[0]));
    lemma_no_dash(path[0]);
    reveal_strlit("-path");
    reveal_strlit("-literalpath");
    reveal_strlit("-path:");
    reveal_strlit("-literalpath:");
    reveal_strlit("-pathtype");
    if crate::text::has_prefix(t, "-path:"@) {
        assert(t.subrange(0, 6)[0] == t[0]);
    }
    if crate::text::has_prefix(t, "-literalpath:"@) {
        assert(t.subrange(0, 13)[0] == t[0]);
    }
    assert("-path"@[0] == '-' && "-literalpath"@[0] == '-' && "-pathtype"@[0] == '-');
    if path.contains('"') {
        assert(path[path.index_of('"')] == '"');
    }
    if path.contains('$') {
        assert(path[path.index_of('$')] == '$');
    }
    if path.contains('`') {
        assert(path[path.index_of('`')] == '`');
    }
    if path.contains('\n') {
        assert(path[path.index_of('\n')] == '\n');
    }
    if path.contains('\r') {
        assert(path[path.index_of('\r')] == '\r');
    }
    if path.contains('*') {
        assert(path[path.index_of('*')] == '*');
    }
    if path.contains('?') {
        assert(path[path.index_of('?')] == '?');
    }
    if path.contains('[') {
        assert(path[path.index_of('[')] == '[');
    }
    if path.contains(']') {
        assert(path[path.index_of(']')] == ']');
    }
}

proof fn lemma_no_dash(c: char)
    requires
        c != '-',
    ensures
        crate::case::ascii_lower(c) != '-',
{
}

proof fn lemma_test_name(name: Seq<char>)
    requires
        is_test_name(name),
    ensures
        crate::case::ascii_lowercase(name) == "test-path"@,
        super::laws::plain_word(name),
        name[0] != '!' && name[0] != '-' && name[0] != '(',
        forall|i: int|
            0 <= i < name.len() ==> #[trigger] name[i] != '"' && name[i] != '\'' && name[i] != '('
                && name[i] != ')',
{
    reveal_strlit("test-path");
    assert(super::reading_laws::lower_ascii("test-path"@));
    super::reading_laws::lemma_spelled(name, "test-path"@);
    assert("test-path"@[0] == 't');
    assert(super::reading_laws::same_letter(name[0], 't'));
    assert forall|i: int| 0 <= i < name.len() implies #[trigger] name[i] != '"' && name[i] != '\''
        && name[i] != '(' && name[i] != ')' by {
        assert(super::reading_laws::same_letter(name[i], "test-path"@[i]));
    }
}

proof fn lemma_plain_condition(s: Seq<char>, variables: Seq<(Seq<char>, Seq<char>)>)
    requires
        s.len() > 0,
        tight(s),
        s[0] != '(' && s[0] != '!' && s[0] != '-',
        operator_from(s, 0, "-or"@, 0, None) is None,
        operator_from(s, 0, "-and"@, 0, None) is None,
    ensures
        condition_of(s, variables) == test_of(s, variables),
{
    law_tight(s);
    assert(unwrapped(s) == s);
    reveal_strlit("-not");
    assert("-not"@[0] == '-');
    assert(!keyword_start(s, "-not"@)) by {
        if keyword_start(s, "-not"@) {
            let t = s.take(4);
            assert(crate::case::ascii_lowercase(t)[0] == crate::case::ascii_lower(s[0]));
            assert(crate::case::ascii_lowercase("-not"@)[0] == crate::case::ascii_lower('-'));
            lemma_no_dash(s[0]);
        }
    }
    assert(binary_sides(s, "-or"@) is None);
    assert(binary_sides(s, "-and"@) is None);
    assert(not_of(s, variables) == test_of(s, variables));
    assert(and_of(s, variables) == test_of(s, variables));
    assert(or_of(s, variables) == test_of(s, variables));
}

#[verifier::rlimit(40)]
proof fn lemma_no_operator_in_test(name: Seq<char>, path: Seq<char>, operator: Seq<char>)
    requires
        is_test_name(name),
        plain_path(path),
        operator.len() > 1,
        operator[0] == '-',
        operator[1] == 'o' || operator[1] == 'a',
    ensures
        operator_from(test_text(name, path), 0, operator, 0, None) is None,
{
    lemma_test_name(name);
    lemma_plain_path(path, Seq::empty());
    let s = test_text(name, path);
    let n = name.len() as int;
    let end = n + 2 + path.len();
    assert(s[n + 1] == '"');
    assert(s[end] == '"');
    assert(end + 1 == s.len());
    assert(operator_from(s, end + 1, operator, 0, None) is None);
    assert(operator_from(s, end, operator, 0, Some('"')) is None);
    lemma_inside_quotes(s, n + 2, end, operator);
    assert(operator_from(s, n + 1, operator, 0, None) is None);
    reveal_strlit("test-path");
    assert forall|k: int| 0 <= k < n + 1 implies !#[trigger] occurs_at(s, operator, k) && s[k]
        != '\'' && s[k] != '"' && s[k] != '(' && s[k] != ')' by {
        if k < n {
            assert(s[k] == name[k]);
        }
        if occurs_at(s, operator, k) {
            assert(s.subrange(k, k + operator.len())[0] == s[k]);
            assert(s.subrange(k, k + operator.len())[1] == s[k + 1]);
            if k < n {
                assert(super::reading_laws::same_letter(name[k], "test-path"@[k]));
                assert(k == 4);
                assert(s[5] == name[5]);
                assert(super::reading_laws::same_letter(name[5], "test-path"@[5]));
            }
        }
    }
    lemma_nothing_between(s, 0, n + 1, operator);
}

proof fn lemma_inside_quotes(s: Seq<char>, i: int, end: int, operator: Seq<char>)
    requires
        0 <= i <= end < s.len(),
        forall|k: int| i <= k < end ==> #[trigger] s[k] != '"',
        operator_from(s, end, operator, 0, Some('"')) is None,
    ensures
        operator_from(s, i, operator, 0, Some('"')) is None,
    decreases end - i,
{
    if i < end {
        assert(s[i] != '"');
        lemma_inside_quotes(s, i + 1, end, operator);
    }
}

/// A test of a path in quotes, white space and all, holds exactly where
/// something is at that path.
#[verifier::rlimit(40)]
pub proof fn law_test(
    name: Seq<char>,
    path: Seq<char>,
    variables: Seq<(Seq<char>, Seq<char>)>,
    world: spec_fn(Seq<char>) -> Option<PathKind>,
)
    requires
        is_test_name(name),
        plain_path(path),
    ensures
        whole(test_text(name, path)),
        condition_of(test_text(name, path), variables) == Some(
            ConditionView::TestPath { path, path_type: TestPathType::Any },
        ),
        holds(condition_of(test_text(name, path), variables)->0, world) <==> world(path) is Some,
{
    lemma_test_name(name);
    lemma_plain_path(path, variables);
    let s = test_text(name, path);
    let e = Seq::<char>::empty();
    let quoted = seq!['"'] + path + seq!['"'] + e;
    assert(s =~= name + seq![' '] + quoted);
    law_plain_word(name, quoted);
    law_quoted_word(path, '"', e);
    assert(words_of(e) =~= Seq::<Seq<char>>::empty());
    assert(words_of(s) =~= seq![name, path]);
    assert(s.last() == '"');
    assert(s[0] == name[0]);
    assert(!whitespace(name[0]));
    let inner = seq!['"'] + path + seq!['"'];
    let head = name + seq![' '];
    assert(s =~= head + inner);
    assert forall|i: int| 0 <= i < head.len() implies #[trigger] head[i] != '"' && head[i] != '\''
        && head[i] != '(' && head[i] != ')' by {
        if i < name.len() {
            assert(head[i] == name[i]);
        }
    }
    lemma_depth_of_plain(head, 0, inner);
    assert(inner[0] == '"');
    assert(inner.skip(1) =~= path + seq!['"'] + e);
    lemma_depth_in_quotes(path, 0, e);
    reveal_strlit("-or");
    reveal_strlit("-and");
    lemma_no_operator_in_test(name, path, "-or"@);
    lemma_no_operator_in_test(name, path, "-and"@);
    lemma_plain_condition(s, variables);
    let tokens = seq![name, path];
    let free = Seq::<Seq<char>>::empty().push(path);
    assert(test_scan(tokens, 2, variables, None, TestPathType::Any, free) == Some(
        (None::<Seq<char>>, TestPathType::Any, free),
    ));
    assert(test_scan(tokens, 1, variables, None, TestPathType::Any, Seq::empty()) == Some(
        (None::<Seq<char>>, TestPathType::Any, free),
    ));
}

/// Two tests with a word for "and" between them hold exactly where something
/// is at both paths, and with a word for "or" where something is at one.
pub proof fn law_tests(
    name: Seq<char>,
    p: Seq<char>,
    q: Seq<char>,
    variables: Seq<(Seq<char>, Seq<char>)>,
    world: spec_fn(Seq<char>) -> Option<PathKind>,
)
    requires
        is_test_name(name),
        plain_path(p),
        plain_path(q),
    ensures
        condition_of(between(test_text(name, p), "-and"@, test_text(name, q)), variables)
            matches Some(c) && (holds(c, world) <==> world(p) is Some && world(q) is Some),
        condition_of(between(test_text(name, p), "-or"@, test_text(name, q)), variables)
            matches Some(c) && (holds(c, world) <==> world(p) is Some || world(q) is Some),
        not_of(seq!['!'] + wrapped(test_text(name, p)), variables) matches Some(c) && (holds(
            c,
            world,
        ) <==> world(p) is None),
{
    law_test(name, p, variables, world);
    law_test(name, q, variables, world);
    let a = ConditionView::TestPath { path: p, path_type: TestPathType::Any };
    let b = ConditionView::TestPath { path: q, path_type: TestPathType::Any };
    law_and(test_text(name, p), test_text(name, q), variables, a, b, world);
    law_or(test_text(name, p), test_text(name, q), variables, a, b, world);
    law_not(test_text(name, p), variables, a, world);
}

/// The types of a test ask for a file, for a directory, or for either.
pub proof fn law_test_types(world: spec_fn(Seq<char>) -> Option<PathKind>, path: Seq<char>)
    ensures
        super::mini::path_type_of("Any"@) == Some(TestPathType::Any),
        super::mini::path_type_of("Leaf"@) == Some(TestPathType::Leaf),
        super::mini::path_type_of("Container"@) == Some(TestPathType::Container),
        holds(ConditionView::TestPath { path, path_type: TestPathType::Leaf }, world) <==> (world(
            path,
        ) matches Some(kind) && kind.is_file),
        holds(ConditionView::TestPath { path, path_type: TestPathType::Container }, world) <==> (
        world(path) matches Some(kind) && kind.is_dir),
{
    reveal_strlit("Any");
    reveal_strlit("any");
    reveal_strlit("Leaf");
    reveal_strlit("leaf");
    reveal_strlit("Container");
    reveal_strlit("container");
    assert(super::reading_laws::lower_ascii("any"@));
    assert(super::reading_laws::lower_ascii("leaf"@));
    assert(super::reading_laws::lower_ascii("container"@));
    super::reading_laws::lemma_spelled("Any"@, "any"@);
    super::reading_laws::lemma_spelled("Leaf"@, "leaf"@);
    super::reading_laws::lemma_spelled("Container"@, "container"@);
}

/// A variable stands for what was assigned to it last, whatever was assigned
/// to others since.
pub proof fn law_latest_value(
    variables: Seq<(Seq<char>, Seq<char>)>,
    name: Seq<char>,
    value: Seq<char>,
    other: Seq<char>,
    another: Seq<char>,
)
    requires
        other != name,
    ensures
        super::mini::lookup(variables.push((name, value)), name) == Some(value),
        super::mini::lookup(variables.push((other, another)), name) == super::mini::lookup(
            variables,
            name,
        ),
        super::mini::lookup(Seq::empty(), name) is None,
{
    assert(variables.push((other, another)).drop_last() =~= variables);
}

} // verus!
