//! Helpers shared by the test types: choosing results, padding selections,
//! and what a group of results says of its machine and its date.

use vstd::prelude::*;
use vstd::string::*;
use crate::utils::messages::{joined, MessageView, ResponseMessage, Severity};
use crate::utils::steel_extractor::{opt_text, TractionResult};
use crate::text::{decimal, decimal_string};

verus! {

/// The texts of a list of columns.
pub open spec fn column_texts(c: Seq<(&'static str, &'static str)>) -> Seq<(Seq<char>, Seq<char>)> {
    c.map_values(|p: (&'static str, &'static str)| (p.0@, p.1@))
}

/// Whether a result is of the given type.
pub open spec fn type_is(ty: u8) -> spec_fn(TractionResult) -> bool {
    |r: TractionResult| r.ty == ty
}

/// Results as selected rows.
pub open spec fn as_rows(results: Seq<TractionResult>) -> Seq<Option<TractionResult>> {
    results.map_values(|r: TractionResult| Some(r))
}

/// The results of the given type, each as a selected row, in order.
pub open spec fn tractions_of_type(results: Seq<TractionResult>, ty: u8) -> Seq<Option<TractionResult>> {
    as_rows(results.filter(type_is(ty)))
}

/// Keeps the results of type `type_to_keep`, in order, as rows.
pub fn filter_map_tractions(test_results: Vec<TractionResult>, type_to_keep: u8) -> (r: Vec<
    Option<TractionResult>,
>)
    ensures
        r@ == tractions_of_type(test_results@, type_to_keep),
{
    let ghost orig = test_results@;
    let ghost pred = type_is(type_to_keep);
    let n = test_results.len();
    let mut rest = test_results;
    let mut rebar_test_results: Vec<Option<TractionResult>> = Vec::new();
    let mut i: usize = 0;
    while i < n
        invariant
            n == orig.len(),
            pred == type_is(type_to_keep),
            i <= n,
            rest@ == orig.subrange(i as int, n as int),
            rebar_test_results@ == as_rows(orig.take(i as int).filter(pred)),
        decreases n - i,
    {
        let res = rest.remove(0);
        proof {
            assert(res == orig[i as int]);
            assert(orig.take(i + 1) =~= orig.take(i as int).push(res));
            orig.take(i as int).lemma_filter_push(res, pred);
            let x = orig.take(i as int).filter(pred);
            assert(as_rows(x.push(res)) =~= as_rows(x).push(Some(res)));
        }
        if res.ty == type_to_keep {
            rebar_test_results.push(Some(res));
        }
        assert(rest@ =~= orig.subrange(i + 1, n as int));
        i = i + 1;
    }
    assert(orig.take(n as int) =~= orig);
    rebar_test_results
}

/// Keeps the results of type `ty`, in order.
pub fn results_of_type(results: Vec<TractionResult>, ty: u8) -> (r: Vec<TractionResult>)
    ensures
        r@ == results@.filter(type_is(ty)),
{
    let ghost orig = results@;
    let ghost pred = type_is(ty);
    let n = results.len();
    let mut rest = results;
    let mut kept: Vec<TractionResult> = Vec::new();
    let mut i: usize = 0;
    while i < n
        invariant
            n == orig.len(),
            pred == type_is(ty),
            i <= n,
            rest@ == orig.subrange(i as int, n as int),
            kept@ == orig.take(i as int).filter(pred),
        decreases n - i,
    {
        let res = rest.remove(0);
        proof {
            assert(res == orig[i as int]);
            assert(orig.take(i + 1) =~= orig.take(i as int).push(res));
            orig.take(i as int).lemma_filter_push(res, pred);
        }
        if res.ty == ty {
            kept.push(res);
        }
        assert(rest@ =~= orig.subrange(i + 1, n as int));
        i = i + 1;
    }
    assert(orig.take(n as int) =~= orig);
    kept
}

/// The warning for more tractions found than can be selected.
pub open spec fn too_many_text(found: nat, wanted: nat) -> Seq<char> {
    "Sono state trovate "@ + decimal(found) + " trazioni, ma puoi selezionarne solo "@ + decimal(
        wanted,
    ) + ". Verifica i dati del materiale prima di procedere, altrimenti le ultime "@ + decimal(
        (found - wanted) as nat,
    ) + " trazioni verranno ignorate"@
}

/// The warning for fewer tractions found than needed.
pub open spec fn too_few_text(found: nat, wanted: nat) -> Seq<char> {
    "Sono state trovate "@ + decimal(found) + " trazioni, ma ne servirebbero almeno "@ + decimal(
        wanted,
    ) + ". Sono stati inseriti "@ + decimal((wanted - found) as nat) + " spaziatori alla fine"@
}

/// Updates the message based on whether the tractions are too few
/// or too many, then adds spacers if they are not enough.
pub fn add_traction_spacers<T>(
    traction: &mut Vec<Option<T>>,
    initial_count: usize,
    message: &mut ResponseMessage,
)
    ensures
        old(traction)@.len() > initial_count ==> final(traction)@ == old(traction)@ && final(message)@
            == joined(
            old(message)@,
            MessageView {
                text: too_many_text(old(traction)@.len(), initial_count as nat),
                severity: Severity::Warning,
            },
        ),
        old(traction)@.len() < initial_count ==> final(traction)@ == old(traction)@ + Seq::new(
            (initial_count - old(traction)@.len()) as nat,
            |i: int| None::<T>,
        ) && final(message)@ == joined(
            old(message)@,
            MessageView {
                text: too_few_text(old(traction)@.len(), initial_count as nat),
                severity: Severity::Warning,
            },
        ),
        old(traction)@.len() == initial_count ==> final(traction)@ == old(traction)@ && final(message)@
            == old(message)@,
{
    let new_tractions_count = traction.len();
    if new_tractions_count > initial_count {
        let mut text = String::from_str("Sono state trovate ");
        text.append(decimal_string(new_tractions_count).as_str());
        text.append(" trazioni, ma puoi selezionarne solo ");
        text.append(decimal_string(initial_count).as_str());
        text.append(". Verifica i dati del materiale prima di procedere, altrimenti le ultime ");
        text.append(decimal_string(new_tractions_count - initial_count).as_str());
        text.append(" trazioni verranno ignorate");
        message.append(ResponseMessage::new_warning(text));
    } else if new_tractions_count < initial_count {
        let mut text = String::from_str("Sono state trovate ");
        text.append(decimal_string(new_tractions_count).as_str());
        text.append(" trazioni, ma ne servirebbero almeno ");
        text.append(decimal_string(initial_count).as_str());
        text.append(". Sono stati inseriti ");
        text.append(decimal_string(initial_count - new_tractions_count).as_str());
        text.append(" spaziatori alla fine");
        message.append(ResponseMessage::new_warning(text));
        let ghost before = traction@;
        while traction.len() < initial_count
            invariant
                before.len() == new_tractions_count,
                new_tractions_count <= traction@.len() <= initial_count,
                traction@ == before + Seq::new(
                    (traction@.len() - new_tractions_count) as nat,
                    |i: int| None::<T>,
                ),
            decreases initial_count - traction@.len(),
        {
            traction.push(None);
            assert(traction@ =~= before + Seq::new(
                (traction@.len() - new_tractions_count) as nat,
                |i: int| None::<T>,
            ));
        }
    }
}

/// Rows fitted to `count`: the extra rows dropped from the end, or empty
/// rows added at the end.
pub open spec fn fitted_rows<R>(rows: Seq<Option<R>>, count: nat) -> Seq<Option<R>> {
    if rows.len() >= count {
        rows.take(count as int)
    } else {
        rows + Seq::new((count - rows.len()) as nat, |i: int| None::<R>)
    }
}

/// Fitting rows to `count` gives `count` rows: the rows there were, in
/// order, as far as they go, then empty rows.
pub proof fn lemma_fitted_rows<R>(rows: Seq<Option<R>>, count: nat)
    ensures
        fitted_rows(rows, count).len() == count,
        forall|i: int|
            0 <= i < count ==> #[trigger] fitted_rows(rows, count)[i] == if i < rows.len() {
                rows[i]
            } else {
                None
            },
{
}

/// Rows already fitted to `count` are left as they are by fitting them
/// again: the spacers added for a selection do not change how the
/// selection fills the minute.
pub proof fn lemma_fitting_twice<R>(rows: Seq<Option<R>>, count: nat)
    ensures
        fitted_rows(fitted_rows(rows, count), count) == fitted_rows(rows, count),
{
    assert(fitted_rows(fitted_rows(rows, count), count) =~= fitted_rows(rows, count));
}

/// Removes the rows beyond `count`, then adds empty rows up to `count`.
pub fn fit_rows<R>(rows: &mut Vec<Option<R>>, count: usize)
    ensures
        final(rows)@ == fitted_rows(old(rows)@, count as nat),
{
    let ghost before = rows@;
    while rows.len() > count
        invariant
            rows@.len() <= before.len(),
            before.len() >= count ==> rows@.len() >= count,
            rows@.len() < before.len() ==> rows@.len() >= count,
            rows@ == before.take(rows@.len() as int),
        decreases rows@.len(),
    {
        rows.pop();
        assert(rows@ =~= before.take(rows@.len() as int));
    }
    let ghost trimmed = rows@;
    assert(before.len() < count ==> trimmed =~= before.take(before.len() as int));
    assert(before.take(before.len() as int) =~= before);
    while rows.len() < count
        invariant
            trimmed.len() <= rows@.len() <= count,
            rows@ == trimmed + Seq::new((rows@.len() - trimmed.len()) as nat, |i: int| None::<R>),
        decreases count - rows@.len(),
    {
        rows.push(None);
        assert(rows@ =~= trimmed + Seq::new(
            (rows@.len() - trimmed.len()) as nat,
            |i: int| None::<R>,
        ));
    }
    proof {
        if before.len() >= count {
            assert(rows@ =~= before.take(count as int));
        } else {
            assert(trimmed =~= before);
        }
    }
}

/// The machine of the first row that holds a result.
pub open spec fn first_machine(rows: Seq<Option<TractionResult>>) -> Option<Seq<char>>
    decreases rows.len(),
{
    if rows.len() == 0 {
        None
    } else if rows[0] is Some {
        Some(rows[0]->0.machine@)
    } else {
        first_machine(rows.drop_first())
    }
}

/// The machine of the first row that holds a result is that row's machine;
/// with no such row there is none.
pub(crate) proof fn lemma_first_machine(rows: Seq<Option<TractionResult>>)
    ensures
        (forall|i: int| 0 <= i < rows.len() ==> #[trigger] rows[i] is None) ==> first_machine(rows)
            is None,
        forall|j: int|
            0 <= j < rows.len() && #[trigger] rows[j] is Some && (forall|h: int|
                0 <= h < j ==> #[trigger] rows[h] is None) ==> first_machine(rows) == Some(
                rows[j]->0.machine@,
            ),
    decreases rows.len(),
{
    if rows.len() > 0 {
        let rest = rows.drop_first();
        lemma_first_machine(rest);
        if forall|i: int| 0 <= i < rows.len() ==> #[trigger] rows[i] is None {
            assert forall|i: int| 0 <= i < rest.len() implies #[trigger] rest[i] is None by {
                assert(rest[i] == rows[i + 1]);
            }
        }
        assert forall|j: int|
            0 <= j < rows.len() && #[trigger] rows[j] is Some && (forall|h: int|
                0 <= h < j ==> #[trigger] rows[h] is None) implies first_machine(rows) == Some(
            rows[j]->0.machine@,
        ) by {
            if j > 0 {
                assert(rows[0] is None);
                assert(rest[j - 1] == rows[j]);
                assert forall|h: int| 0 <= h < j - 1 implies #[trigger] rest[h] is None by {
                    assert(rest[h] == rows[h + 1]);
                }
            }
        }
    }
}

/// Obtains the machine for the given tractions.
pub fn get_test_machine(test_results: &[Option<TractionResult>]) -> (r: Option<String>)
    ensures
        opt_text(r) == first_machine(test_results@),
{
    let n = test_results.len();
    let mut i: usize = 0;
    assert(test_results@.skip(0) =~= test_results@);
    while i < n
        invariant
            n == test_results@.len(),
            i <= n,
            first_machine(test_results@) == first_machine(test_results@.skip(i as int)),
        decreases n - i,
    {
        assert(test_results@.skip(i as int).drop_first() =~= test_results@.skip(i + 1));
        match &test_results[i] {
            Some(bar) => {
                return Some(bar.machine.clone());
            },
            None => {},
        }
        i = i + 1;
    }
    None
}

/// The sum of the timestamps of the rows that hold a result.
pub open spec fn timestamp_sum(rows: Seq<Option<TractionResult>>) -> int
    decreases rows.len(),
{
    if rows.len() == 0 {
        0
    } else {
        timestamp_sum(rows.drop_last()) + match rows.last() {
            Some(t) => t.timestamp as int,
            None => 0,
        }
    }
}

/// Division of integers rounded toward zero.
pub open spec fn trunc_div(a: int, b: int) -> int {
    if a >= 0 {
        a / b
    } else {
        -((-a) / b)
    }
}

/// The UTC calendar date, written `%Y-%m-%d`, of a Unix timestamp in
/// seconds; `None` for timestamps out of the calendar's range.
pub uninterp spec fn utc_calendar_date(secs: i64) -> Option<Seq<char>>;

/// The date of a group of rows: the average of the timestamps of the rows
/// that hold a result, taken over all the rows (the empty rows count as
/// well), rounded toward zero; when there are no rows or the timestamps sum
/// to zero, the fallback.
pub open spec fn average_date(rows: Seq<Option<TractionResult>>, fallback: Option<Seq<char>>) -> Option<
    Seq<char>,
> {
    if rows.len() == 0 || timestamp_sum(rows) == 0 {
        fallback
    } else {
        utc_calendar_date(trunc_div(timestamp_sum(rows), rows.len() as int) as i64)
    }
}

/// Converts a timestamp to a date: calls `chrono::DateTime::<Utc>::from_timestamp`
/// with no nanoseconds and formats the date it gives with `%Y-%m-%d`.
/// The contract claims that the result is a function of the seconds alone.
#[verifier::external_body]
fn timestamp_to_date(secs: i64) -> (r: Option<String>)
    ensures
        opt_text(r) == utc_calendar_date(secs),
{
    chrono::DateTime::<chrono::Utc>::from_timestamp(secs, 0).map(
        |d| d.format("%Y-%m-%d").to_string(),
    )
}

proof fn lemma_trunc_div_bounds(s: int, n: int)
    requires
        n > 0,
        n * (i64::MIN as int) <= s <= n * (i64::MAX as int),
    ensures
        i64::MIN <= trunc_div(s, n) <= i64::MAX,
{
    if s >= 0 {
        assert(s / n <= i64::MAX) by (nonlinear_arith)
            requires
                n > 0,
                0 <= s <= n * (i64::MAX as int),
        ;
    } else {
        assert((-s) / n <= -(i64::MIN as int)) by (nonlinear_arith)
            requires
                n > 0,
                0 < -s <= n * (-(i64::MIN as int)),
        ;
    }
}

/// The date of a group of rows (see `average_date`).
pub fn get_avg_timestamp(test_results: &[Option<TractionResult>], fallback: &Option<String>) -> (r:
    Option<String>)
    ensures
        opt_text(r) == average_date(test_results@, opt_text(*fallback)),
{
    let n = test_results.len();
    let mut sum: i128 = 0;
    let mut i: usize = 0;
    while i < n
        invariant
            n == test_results@.len(),
            i <= n,
            sum == timestamp_sum(test_results@.take(i as int)),
            i * (i64::MIN as int) <= sum <= i * (i64::MAX as int),
        decreases n - i,
    {
        assert(test_results@.take(i + 1).drop_last() =~= test_results@.take(i as int));
        match &test_results[i] {
            Some(b) => {
                sum = sum + b.timestamp as i128;
            },
            None => {},
        }
        i = i + 1;
    }
    assert(test_results@.take(n as int) =~= test_results@);
    if n == 0 || sum == 0 {
        return match fallback {
            Some(s) => Some(s.clone()),
            None => None,
        };
    }
    proof {
        lemma_trunc_div_bounds(sum as int, n as int);
    }
    let avg: i64 = if sum >= 0 {
        (sum / (n as i128)) as i64
    } else {
        let m: i128 = -sum;
        let q: i128 = m / (n as i128);
        (-q) as i64
    };
    assert(avg as int == trunc_div(timestamp_sum(test_results@), n as int));
    timestamp_to_date(avg)
}

} // verus!
