//! Validation of `tools/call` arguments against the advertised input
//! schema: unknown parameters are reported with similarity-ranked
//! suggestions, missing required parameters are reported by name. Schema
//! constraint violations are computed by the caller's JSON-Schema engine
//! and folded into the same report.

use crate::text::{str_eq, view_strings};
use vstd::prelude::*;

verus! {

broadcast use vstd::std_specs::vec::group_vec_axioms, vstd::seq::group_seq_axioms;

/// The similarity threshold, in millionths, above which a parameter name
/// is suggested. Scores come from the caller's similarity measure, scaled
/// to millionths of the unit interval.
pub open spec fn spec_suggestion_threshold() -> u64 {
    700000u64
}

/// Scored suggestions in descending score order.
pub open spec fn scored_sorted_desc(s: Seq<(u64, Seq<char>)>) -> bool {
    forall|i: int, j: int| 0 <= i < j < s.len() ==> (#[trigger] s[i]).0 >= (#[trigger] s[j]).0
}

pub open spec fn view_scored(s: Seq<(u64, String)>) -> Seq<(u64, Seq<char>)> {
    s.map(|i: int, p: (u64, String)| (p.0, p.1@))
}

/// Insert a scored candidate into a descending list, after equal scores.
pub open spec fn spec_insert_scored(s: Seq<(u64, Seq<char>)>, x: (u64, Seq<char>)) -> Seq<
    (u64, Seq<char>),
>
    decreases s.len(),
{
    if s.len() == 0 {
        seq![x]
    } else if s.last().0 >= x.0 {
        s.push(x)
    } else {
        spec_insert_scored(s.drop_last(), x).push(s.last())
    }
}

proof fn lemma_insert_scored_sorted(s: Seq<(u64, Seq<char>)>, x: (u64, Seq<char>))
    requires
        scored_sorted_desc(s),
    ensures
        scored_sorted_desc(spec_insert_scored(s, x)),
        spec_insert_scored(s, x).len() == s.len() + 1,
        forall|y: (u64, Seq<char>)|
            #[trigger] spec_insert_scored(s, x).contains(y) <==> (s.contains(y) || y == x),
        forall|y: (u64, Seq<char>)|
            #[trigger] s.contains(y) ==> spec_insert_scored(s, x).contains(y),
        spec_insert_scored(s, x).contains(x),
    decreases s.len(),
{
    if s.len() == 0 {
        assert(spec_insert_scored(s, x)[0] == x);
        assert(spec_insert_scored(s, x).contains(x));
        assert forall|y: (u64, Seq<char>)|
            #[trigger] spec_insert_scored(s, x).contains(y) <==> (s.contains(y) || y == x) by {
            if y == x {
                assert(spec_insert_scored(s, x)[0] == y);
            }
            if spec_insert_scored(s, x).contains(y) {
                let t = choose|t: int|
                    0 <= t < spec_insert_scored(s, x).len() && spec_insert_scored(s, x)[t] == y;
                assert(y == x);
            }
        }
    } else if s.last().0 >= x.0 {
        let r = s.push(x);
        assert forall|i: int, j: int| 0 <= i < j < r.len() implies (#[trigger] r[i]).0 >= (
        #[trigger] r[j]).0 by {
            if j == r.len() - 1 && i < s.len() - 1 {
                assert(s[i].0 >= s[s.len() - 1].0);
            }
        }
        assert(r[s.len() as int] == x);
        assert(r.contains(x));
        assert forall|y: (u64, Seq<char>)|
            #[trigger] r.contains(y) <==> (s.contains(y) || y == x) by {
            if r.contains(y) {
                let t = choose|t: int| 0 <= t < r.len() && r[t] == y;
                if t < s.len() {
                    assert(s[t] == y);
                }
            }
            if s.contains(y) {
                let t = choose|t: int| 0 <= t < s.len() && s[t] == y;
                assert(r[t] == y);
            }
            if y == x {
                assert(r[s.len() as int] == y);
            }
        }
        assert forall|y: (u64, Seq<char>)| #[trigger] s.contains(y) implies r.contains(y) by {
            let t = choose|t: int| 0 <= t < s.len() && s[t] == y;
            assert(r[t] == y);
        }
    } else {
        assert(scored_sorted_desc(s.drop_last()));
        lemma_insert_scored_sorted(s.drop_last(), x);
        let pre = spec_insert_scored(s.drop_last(), x);
        let r = pre.push(s.last());
        assert forall|i: int, j: int| 0 <= i < j < r.len() implies (#[trigger] r[i]).0 >= (
        #[trigger] r[j]).0 by {
            if j == r.len() - 1 {
                assert(pre.contains(pre[i]));
                if pre[i] == x {
                } else {
                    assert(s.drop_last().contains(pre[i]));
                    let t = choose|t: int|
                        0 <= t < s.drop_last().len() && s.drop_last()[t] == pre[i];
                    assert(s[t].0 >= s[s.len() - 1].0);
                }
            }
        }
        assert forall|y: (u64, Seq<char>)|
            #[trigger] r.contains(y) <==> (s.contains(y) || y == x) by {
            if r.contains(y) {
                let t = choose|t: int| 0 <= t < r.len() && r[t] == y;
                if t < pre.len() {
                    assert(pre.contains(pre[t]));
                    if y != x {
                        assert(s.drop_last().contains(y));
                        let q = choose|q: int|
                            0 <= q < s.drop_last().len() && s.drop_last()[q] == y;
                        assert(s[q] == y);
                    }
                } else {
                    assert(y == s.last());
                    assert(s[s.len() - 1] == y);
                }
            }
            if s.contains(y) {
                let t = choose|t: int| 0 <= t < s.len() && s[t] == y;
                if t < s.len() - 1 {
                    assert(s.drop_last()[t] == y);
                    assert(s.drop_last().contains(y)) by {
                        assert(s.drop_last()[t] == y);
                    }
                    assert(pre.contains(y));
                    let q = choose|q: int| 0 <= q < pre.len() && pre[q] == y;
                    assert(r[q] == y);
                } else {
                    assert(r[r.len() - 1] == y);
                }
            }
            if y == x {
                assert(pre.contains(y));
                let q = choose|q: int| 0 <= q < pre.len() && pre[q] == y;
                assert(r[q] == y);
            }
        }
        assert forall|y: (u64, Seq<char>)| #[trigger] s.contains(y) implies r.contains(y) by {
            assert(r.contains(y) <==> (s.contains(y) || y == x));
        }
        assert(r.contains(x)) by {
            assert(r.contains(x) <==> (s.contains(x) || x == x));
        }
    }
}

fn insert_scored(s: Vec<(u64, String)>, x: (u64, String)) -> (r: Vec<(u64, String)>)
    ensures
        view_scored(r@) == spec_insert_scored(view_scored(s@), (x.0, x.1@)),
    decreases s@.len(),
{
    let ghost sv = view_scored(s@);
    let ghost xv = (x.0, x.1@);
    let mut s = s;
    if s.len() == 0 {
        s.push(x);
        proof {
            assert(view_scored(s@) =~= seq![xv]);
        }
        return s;
    }
    let n = s.len();
    if s[n - 1].0 >= x.0 {
        proof {
            assert(sv.last() == (s@[n - 1].0, s@[n - 1].1@));
        }
        s.push(x);
        proof {
            assert(view_scored(s@) =~= sv.push(xv));
        }
        return s;
    }
    proof {
        assert(sv.last() == (s@[n - 1].0, s@[n - 1].1@));
    }
    let last = s.pop().unwrap();
    let ghost popped = view_scored(s@);
    proof {
        assert(popped =~= sv.drop_last());
    }
    let ghost lastv = (last.0, last.1@);
    let mut r = insert_scored(s, x);
    let ghost rpre = view_scored(r@);
    r.push(last);
    proof {
        assert(view_scored(r@) =~= rpre.push(lastv));
    }
    r
}

/// Whether some scored pair above the threshold carries this name.
pub open spec fn spec_is_suggested(scored_names: Seq<(u64, String)>, name: Seq<char>) -> bool {
    exists|q: int|
        0 <= q < scored_names.len() && (#[trigger] scored_names[q]).1@ == name && scored_names[q].0
            > spec_suggestion_threshold()
}

/// Whether some scored pair carries exactly this name and score.
pub open spec fn spec_scored_with(
    scored_names: Seq<(u64, String)>,
    name: Seq<char>,
    score: u64,
) -> bool {
    exists|q: int|
        0 <= q < scored_names.len() && (#[trigger] scored_names[q]).0 == score
            && scored_names[q].1@ == name
}

/// A witness that `r` is sorted by similarity, most similar first: a
/// descending score sequence pairing each suggestion with a scored entry
/// that bears its name and score.
pub open spec fn spec_desc_witness(
    scored_names: Seq<(u64, String)>,
    r: Seq<String>,
    s: Seq<u64>,
) -> bool {
    &&& s.len() == r.len()
    &&& forall|t: int| 0 <= t < r.len() ==> spec_scored_with(scored_names, (#[trigger] r[t])@, s[t])
    &&& forall|t1: int, t2: int| 0 <= t1 < t2 < s.len() ==> #[trigger] s[t1] >= #[trigger] s[t2]
}

/// What ranking promises: every suggestion names a scored pair above the
/// threshold, and every pair above the threshold is suggested.
pub open spec fn spec_ranked(scored_names: Seq<(u64, String)>, r: Seq<String>) -> bool {
    &&& forall|t: int|
        0 <= t < r.len() ==> spec_is_suggested(scored_names, (#[trigger] r[t])@)
    &&& forall|q: int|
        0 <= q < scored_names.len() && (#[trigger] scored_names[q]).0
            > spec_suggestion_threshold() ==> view_strings(r).contains(scored_names[q].1@)
}

/// Rank scored parameter names into suggestions: names scoring above the
/// threshold, most similar first. Every suggestion comes from a scored
/// pair above the threshold, every pair above the threshold is suggested,
/// and internally the kept pairs are held in descending score order.
pub fn rank_suggestions(scored_names: &Vec<(u64, String)>) -> (r: Vec<String>)
    ensures
        spec_ranked(scored_names@, r@),
        exists|s: Seq<u64>| spec_desc_witness(scored_names@, r@, s),
{
    let n = scored_names.len();
    let mut scored: Vec<(u64, String)> = Vec::new();
    let mut i: usize = 0;
    while i < n
        invariant
            n == scored_names@.len(),
            i <= n,
            scored_sorted_desc(view_scored(scored@)),
            forall|y: (u64, Seq<char>)|
                #[trigger] view_scored(scored@).contains(y) ==> (exists|q: int|
                    0 <= q < scored_names@.len() && ((#[trigger] scored_names@[q]).0,
                    scored_names@[q].1@) == y) && y.0 > spec_suggestion_threshold(),
            forall|q: int|
                0 <= q < i && (#[trigger] scored_names@[q]).0 > spec_suggestion_threshold()
                    ==> view_scored(scored@).contains(
                    (scored_names@[q].0, scored_names@[q].1@),
                ),
        decreases n - i,
    {
        let score = scored_names[i].0;
        if score > 700000 {
            let ghost before = view_scored(scored@);
            let ghost xv = (score, scored_names@[i as int].1@);
            proof {
                lemma_insert_scored_sorted(before, xv);
            }
            let updated = insert_scored(scored, (score, scored_names[i].1.clone()));
            scored = updated;
            proof {
                assert(view_scored(scored@) == spec_insert_scored(before, xv));
                assert forall|y: (u64, Seq<char>)|
                    #[trigger] view_scored(scored@).contains(y) implies (exists|q: int|
                    0 <= q < scored_names@.len() && ((#[trigger] scored_names@[q]).0,
                    scored_names@[q].1@) == y) && y.0 > spec_suggestion_threshold() by {
                    if y == xv {
                        assert((scored_names@[i as int].0, scored_names@[i as int].1@) == y);
                    } else {
                        assert(before.contains(y));
                    }
                }
            }
        }
        i = i + 1;
    }
    let m = scored.len();
    let mut out: Vec<String> = Vec::new();
    let mut j: usize = 0;
    while j < m
        invariant
            m == scored@.len(),
            j <= m,
            out@.len() == j,
            forall|t: int| 0 <= t < j ==> (#[trigger] out@[t])@ == scored@[t].1@,
            forall|y: (u64, Seq<char>)|
                #[trigger] view_scored(scored@).contains(y) ==> (exists|q: int|
                    0 <= q < scored_names@.len() && ((#[trigger] scored_names@[q]).0,
                    scored_names@[q].1@) == y) && y.0 > spec_suggestion_threshold(),
            forall|q: int|
                0 <= q < scored_names@.len() && (#[trigger] scored_names@[q]).0
                    > spec_suggestion_threshold() ==> view_scored(scored@).contains(
                    (scored_names@[q].0, scored_names@[q].1@),
                ),
        decreases m - j,
    {
        out.push(scored[j].1.clone());
        j = j + 1;
    }
    proof {
        assert forall|t: int|
            0 <= t < out@.len() implies spec_is_suggested(
            scored_names@,
            (#[trigger] out@[t])@,
        ) by {
            assert(out@[t]@ == scored@[t].1@);
            let y = view_scored(scored@)[t];
            assert(view_scored(scored@).contains(y));
            let q = choose|q: int|
                0 <= q < scored_names@.len() && ((#[trigger] scored_names@[q]).0,
                scored_names@[q].1@) == y;
            assert(scored_names@[q].1@ == out@[t]@);
            assert(scored_names@[q].0 == y.0);
            assert(scored_names@[q].0 > spec_suggestion_threshold());
        }
        assert forall|q: int|
            0 <= q < scored_names@.len() && (#[trigger] scored_names@[q]).0
                > spec_suggestion_threshold() implies view_strings(out@).contains(
            scored_names@[q].1@,
        ) by {
            let y = (scored_names@[q].0, scored_names@[q].1@);
            assert(view_scored(scored@).contains(y));
            let t = choose|t: int|
                0 <= t < view_scored(scored@).len() && view_scored(scored@)[t] == y;
            assert(out@[t]@ == scored_names@[q].1@);
            assert(view_strings(out@)[t] == scored_names@[q].1@);
        }
        assert(spec_ranked(scored_names@, out@));
        let wit = view_scored(scored@).map(|i: int, y: (u64, Seq<char>)| y.0);
        assert forall|t: int| 0 <= t < out@.len() implies spec_scored_with(
            scored_names@,
            (#[trigger] out@[t])@,
            wit[t],
        ) by {
            let y = view_scored(scored@)[t];
            assert(view_scored(scored@).contains(y));
            let q = choose|q: int|
                0 <= q < scored_names@.len() && ((#[trigger] scored_names@[q]).0,
                scored_names@[q].1@) == y;
            assert(scored_names@[q].0 == wit[t] && scored_names@[q].1@ == out@[t]@);
        }
        assert(spec_desc_witness(scored_names@, out@, wit));
    }
    out
}

/// The mathematical view of a reported violation.
pub enum SpecViolation {
    Unknown { parameter: Seq<char>, suggestions: Seq<Seq<char>> },
    Missing { parameter: Seq<char> },
    Constraint { message: Seq<char>, instance_path: Seq<char> },
}

/// One reported problem with a call's arguments.
#[derive(Debug)]
pub enum ArgumentViolation {
    /// An argument name the schema does not declare, with suggestions.
    UnknownParameter { parameter: String, suggestions: Vec<String> },
    /// A declared-required parameter the call left out.
    MissingRequired { parameter: String },
    /// A schema constraint the JSON-Schema engine reported.
    ConstraintViolation { message: String, instance_path: String },
}

pub open spec fn view_violation(v: ArgumentViolation) -> SpecViolation {
    match v {
        ArgumentViolation::UnknownParameter { parameter, suggestions } => SpecViolation::Unknown {
            parameter: parameter@,
            suggestions: view_strings(suggestions@),
        },
        ArgumentViolation::MissingRequired { parameter } => SpecViolation::Missing {
            parameter: parameter@,
        },
        ArgumentViolation::ConstraintViolation { message, instance_path } => SpecViolation::Constraint {
            message: message@,
            instance_path: instance_path@,
        },
    }
}

pub open spec fn view_violations(s: Seq<ArgumentViolation>) -> Seq<SpecViolation> {
    s.map(|i: int, v: ArgumentViolation| view_violation(v))
}

/// The view of the per-name suggestion table.
pub open spec fn view_suggestion_table(s: Seq<(String, Vec<String>)>) -> Seq<
    (Seq<char>, Seq<Seq<char>>),
> {
    s.map(|i: int, e: (String, Vec<String>)| (e.0@, view_strings(e.1@)))
}

/// The suggestions recorded for a name: the first matching table entry,
/// or none.
pub open spec fn spec_suggestions_for(
    table: Seq<(Seq<char>, Seq<Seq<char>>)>,
    name: Seq<char>,
) -> Seq<Seq<char>>
    decreases table.len(),
{
    if table.len() == 0 {
        Seq::empty()
    } else if table.first().0 == name {
        table.first().1
    } else {
        spec_suggestions_for(table.drop_first(), name)
    }
}

/// The unknown-parameter reports for an argument list: one per argument
/// name outside the declared parameters, in argument order, carrying the
/// recorded suggestions.
pub open spec fn spec_unknown_reports(
    args: Seq<Seq<char>>,
    valid: Seq<Seq<char>>,
    table: Seq<(Seq<char>, Seq<Seq<char>>)>,
) -> Seq<SpecViolation>
    decreases args.len(),
{
    if args.len() == 0 {
        Seq::empty()
    } else {
        let pre = spec_unknown_reports(args.drop_last(), valid, table);
        if valid.contains(args.last()) {
            pre
        } else {
            pre.push(
                SpecViolation::Unknown {
                    parameter: args.last(),
                    suggestions: spec_suggestions_for(table, args.last()),
                },
            )
        }
    }
}

/// The missing-required reports: one per required name absent from the
/// arguments, in declaration order.
pub open spec fn spec_missing_reports(
    required: Seq<Seq<char>>,
    args: Seq<Seq<char>>,
) -> Seq<SpecViolation>
    decreases required.len(),
{
    if required.len() == 0 {
        Seq::empty()
    } else {
        let pre = spec_missing_reports(required.drop_last(), args);
        if args.contains(required.last()) {
            pre
        } else {
            pre.push(SpecViolation::Missing { parameter: required.last() })
        }
    }
}

/// The full validation report: unknown parameters, then missing required
/// parameters, then the JSON-Schema findings, in order.
pub open spec fn spec_validation_report(
    args: Seq<Seq<char>>,
    valid: Seq<Seq<char>>,
    required: Seq<Seq<char>>,
    table: Seq<(Seq<char>, Seq<Seq<char>>)>,
    constraints: Seq<SpecViolation>,
) -> Seq<SpecViolation> {
    spec_unknown_reports(args, valid, table) + spec_missing_reports(required, args) + constraints
}

/// A call is reported clean exactly when every argument is declared,
/// every required parameter is present, and the JSON-Schema engine found
/// nothing.
pub proof fn lemma_validation_report_empty(
    args: Seq<Seq<char>>,
    valid: Seq<Seq<char>>,
    required: Seq<Seq<char>>,
    table: Seq<(Seq<char>, Seq<Seq<char>>)>,
    constraints: Seq<SpecViolation>,
)
    ensures
        spec_validation_report(args, valid, required, table, constraints).len() == 0 <==> ((
        forall|t: int| 0 <= t < args.len() ==> valid.contains(#[trigger] args[t])) && (forall|
            t: int,
        | 0 <= t < required.len() ==> args.contains(#[trigger] required[t])) && constraints.len()
            == 0),
{
    lemma_unknown_reports_empty(args, valid, table);
    lemma_missing_reports_empty(required, args);
}

proof fn lemma_unknown_reports_empty(
    args: Seq<Seq<char>>,
    valid: Seq<Seq<char>>,
    table: Seq<(Seq<char>, Seq<Seq<char>>)>,
)
    ensures
        spec_unknown_reports(args, valid, table).len() == 0 <==> (forall|t: int|
            0 <= t < args.len() ==> valid.contains(#[trigger] args[t])),
    decreases args.len(),
{
    if args.len() > 0 {
        lemma_unknown_reports_empty(args.drop_last(), valid, table);
        assert(forall|t: int|
            0 <= t < args.drop_last().len() ==> #[trigger] args.drop_last()[t] == args[t]);
        if spec_unknown_reports(args, valid, table).len() == 0 {
            assert forall|t: int| 0 <= t < args.len() implies valid.contains(
                #[trigger] args[t],
            ) by {
                if t < args.len() - 1 {
                    assert(args.drop_last()[t] == args[t]);
                }
            }
        }
    }
}

proof fn lemma_missing_reports_empty(required: Seq<Seq<char>>, args: Seq<Seq<char>>)
    ensures
        spec_missing_reports(required, args).len() == 0 <==> (forall|t: int|
            0 <= t < required.len() ==> args.contains(#[trigger] required[t])),
    decreases required.len(),
{
    if required.len() > 0 {
        lemma_missing_reports_empty(required.drop_last(), args);
        assert(forall|t: int|
            0 <= t < required.drop_last().len() ==> #[trigger] required.drop_last()[t]
                == required[t]);
        if spec_missing_reports(required, args).len() == 0 {
            assert forall|t: int| 0 <= t < required.len() implies args.contains(
                #[trigger] required[t],
            ) by {
                if t < required.len() - 1 {
                    assert(required.drop_last()[t] == required[t]);
                }
            }
        }
    }
}

/// Mapping to views commutes with appending one violation.
proof fn lemma_view_violations_push(s: Seq<ArgumentViolation>, v: ArgumentViolation)
    ensures
        view_violations(s.push(v)) =~= view_violations(s).push(view_violation(v)),
{
    assert forall|t: int| 0 <= t < s.len() + 1 implies view_violations(s.push(v))[t]
        == view_violations(s).push(view_violation(v))[t] by {
        if t < s.len() {
            assert(s.push(v)[t] == s[t]);
        }
    }
}

/// The ranked suggestions recorded for an argument name, if any.
fn suggestions_for(suggestions: &Vec<(String, Vec<String>)>, name: &str) -> (r: Vec<String>)
    ensures
        view_strings(r@) == spec_suggestions_for(view_suggestion_table(suggestions@), name@),
{
    let ghost table = view_suggestion_table(suggestions@);
    let n = suggestions.len();
    let mut i: usize = 0;
    proof {
        assert(table.skip(0) =~= table);
    }
    while i < n
        invariant
            n == suggestions@.len(),
            table == view_suggestion_table(suggestions@),
            table.len() == n,
            i <= n,
            spec_suggestions_for(table, name@) == spec_suggestions_for(
                table.skip(i as int),
                name@,
            ),
        decreases n - i,
    {
        proof {
            assert(table.skip(i as int).first() == table[i as int]);
            assert(table.skip(i as int).drop_first() =~= table.skip(i + 1));
            assert(table[i as int] == (
                suggestions@[i as int].0@,
                view_strings(suggestions@[i as int].1@),
            ));
        }
        if str_eq(suggestions[i].0.as_str(), name) {
            let m = suggestions[i].1.len();
            let mut out: Vec<String> = Vec::new();
            let mut j: usize = 0;
            while j < m
                invariant
                    m == suggestions@[i as int].1@.len(),
                    i < n == suggestions@.len(),
                    j <= m,
                    out@.len() == j,
                    forall|t: int|
                        0 <= t < j ==> (#[trigger] out@[t])@ == (suggestions@[i as int].1@[t])@,
                decreases m - j,
            {
                out.push(suggestions[i].1[j].clone());
                j = j + 1;
            }
            proof {
                assert(view_strings(out@) =~= view_strings(suggestions@[i as int].1@));
            }
            return out;
        }
        i = i + 1;
    }
    proof {
        assert(table.skip(n as int).len() == 0);
    }
    Vec::new()
}

/// Validate call arguments against the advertised parameter names and
/// required list. The report is exactly: one unknown-parameter entry per
/// argument outside the declared parameters, in argument order, carrying
/// the recorded suggestions; one missing-required entry per required name
/// absent from the arguments, in declaration order; then the caller's
/// JSON-Schema findings unchanged. In particular a call with only
/// declared arguments, all required names present and no schema findings
/// yields an empty report.
pub fn validate_tool_arguments(
    valid_params: &Vec<String>,
    required: &Vec<String>,
    args: &Vec<String>,
    suggestions: &Vec<(String, Vec<String>)>,
    constraint_violations: Vec<ArgumentViolation>,
) -> (r: Vec<ArgumentViolation>)
    ensures
        view_violations(r@) == spec_validation_report(
            view_strings(args@),
            view_strings(valid_params@),
            view_strings(required@),
            view_suggestion_table(suggestions@),
            view_violations(constraint_violations@),
        ),
{
    let ghost args_v = view_strings(args@);
    let ghost valid_v = view_strings(valid_params@);
    let ghost required_v = view_strings(required@);
    let ghost table = view_suggestion_table(suggestions@);
    let ghost constraints_v = view_violations(constraint_violations@);
    let mut out: Vec<ArgumentViolation> = Vec::new();
    let n = args.len();
    let mut i: usize = 0;
    while i < n
        invariant
            n == args@.len(),
            args_v == view_strings(args@),
            valid_v == view_strings(valid_params@),
            table == view_suggestion_table(suggestions@),
            args_v.len() == n,
            i <= n,
            view_violations(out@) == spec_unknown_reports(
                args_v.take(i as int),
                valid_v,
                table,
            ),
        decreases n - i,
    {
        proof {
            assert(args_v.take(i + 1).drop_last() =~= args_v.take(i as int));
            assert(args_v.take(i + 1).last() == args_v[i as int]);
            assert(args_v[i as int] == (args@[i as int])@);
        }
        if !crate::text::strings_contain(valid_params, args[i].as_str()) {
            let found = suggestions_for(suggestions, args[i].as_str());
            let ghost prev = out@;
            out.push(
                ArgumentViolation::UnknownParameter {
                    parameter: args[i].clone(),
                    suggestions: found,
                },
            );
            proof {
                lemma_view_violations_push(prev, out@.last());
                assert(view_violations(out@) =~= spec_unknown_reports(
                    args_v.take(i + 1),
                    valid_v,
                    table,
                ));
            }
        } else {
            proof {
                assert(view_violations(out@) =~= spec_unknown_reports(
                    args_v.take(i + 1),
                    valid_v,
                    table,
                ));
            }
        }
        i = i + 1;
    }
    proof {
        assert(args_v.take(n as int) =~= args_v);
    }
    let ghost unknown_reports = spec_unknown_reports(args_v, valid_v, table);
    let m = required.len();
    let mut j: usize = 0;
    proof {
        assert(unknown_reports + spec_missing_reports(required_v.take(0), args_v)
            =~= unknown_reports);
    }
    while j < m
        invariant
            m == required@.len(),
            args_v == view_strings(args@),
            required_v == view_strings(required@),
            required_v.len() == m,
            j <= m,
            view_violations(out@) == unknown_reports + spec_missing_reports(
                required_v.take(j as int),
                args_v,
            ),
        decreases m - j,
    {
        proof {
            assert(required_v.take(j + 1).drop_last() =~= required_v.take(j as int));
            assert(required_v.take(j + 1).last() == required_v[j as int]);
            assert(required_v[j as int] == (required@[j as int])@);
        }
        if !crate::text::strings_contain(args, required[j].as_str()) {
            let ghost prev = out@;
            out.push(ArgumentViolation::MissingRequired { parameter: required[j].clone() });
            proof {
                lemma_view_violations_push(prev, out@.last());
                assert(view_violations(out@) =~= unknown_reports + spec_missing_reports(
                    required_v.take(j + 1),
                    args_v,
                ));
            }
        } else {
            proof {
                assert(view_violations(out@) =~= unknown_reports + spec_missing_reports(
                    required_v.take(j + 1),
                    args_v,
                ));
            }
        }
        j = j + 1;
    }
    proof {
        assert(required_v.take(m as int) =~= required_v);
    }
    let ghost base = view_violations(out@);
    // Append the schema findings in their given order: drain into a stack,
    // then drain the stack.
    let mut rest = constraint_violations;
    let mut stack: Vec<ArgumentViolation> = Vec::new();
    while rest.len() > 0
        invariant
            rest@ + stack@.reverse() == constraint_violations@,
        decreases rest@.len(),
    {
        if let Some(v) = rest.pop() {
            let ghost prev_rest = rest@;
            let ghost prev_stack = stack@;
            stack.push(v);
            proof {
                assert(stack@.reverse() =~= seq![stack@.last()] + prev_stack.reverse());
                assert(prev_rest + stack@.reverse() =~= constraint_violations@);
            }
        }
    }
    proof {
        assert(stack@.reverse() =~= constraint_violations@);
    }
    while stack.len() > 0
        invariant
            view_violations(out@) + view_violations(stack@.reverse()) == base + constraints_v,
        decreases stack@.len(),
    {
        if let Some(v) = stack.pop() {
            let ghost prev_stack = stack@;
            let ghost prev_out = out@;
            out.push(v);
            proof {
                lemma_view_violations_push(prev_out, out@.last());
                assert(prev_stack.push(out@.last()).reverse() =~= seq![out@.last()]
                    + prev_stack.reverse());
                assert(view_violations(seq![out@.last()] + prev_stack.reverse()) =~= seq![
                    view_violation(out@.last()),
                ] + view_violations(prev_stack.reverse()));
                assert(view_violations(prev_out).push(view_violation(out@.last()))
                    + view_violations(prev_stack.reverse()) =~= view_violations(prev_out) + (seq![
                    view_violation(out@.last()),
                ] + view_violations(prev_stack.reverse())));
            }
        }
    }
    proof {
        assert(view_violations(stack@.reverse()).len() == 0);
        assert(view_violations(out@) + view_violations(stack@.reverse()) =~= view_violations(
            out@,
        ));
        assert(view_violations(out@) =~= spec_validation_report(
            args_v,
            valid_v,
            required_v,
            table,
            constraints_v,
        ));
    }
    out
}

} // verus!
