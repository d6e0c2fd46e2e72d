//! The CARP.LP test type: traction tests on laminated profiles.

use vstd::prelude::*;
use crate::routes::test_types::utils::{
    add_traction_spacers, average_date, column_texts, filter_map_tractions, fit_rows, fitted_rows, get_avg_timestamp,
    lemma_fitted_rows,
    too_few_text, too_many_text, tractions_of_type, type_is,
};
use crate::utils::messages::{joined, MessageView, Severity};
use crate::utils::messages::ResponseMessage;
use crate::utils::steel_extractor::{opt_text, TractionResult};
use crate::utils::{FrontendDialogData, Method, MethodInput, MethodList, MethodOutput};
use vstd::string::*;

verus! {

#[verifier::external_type_specification]
#[verifier::external_body]
pub struct ExJsonValue(serde_json::Value);

/// Root payload
pub struct Minute {
    pub samples: Vec<Sample>,
}

/// A sample of the minute, with its traction tests.
///
/// `set_res` and `res` are carried along untouched.
pub struct Sample {
    pub data_tr: Option<String>,
    pub bda: Option<String>,
    pub rid: bool,
    pub tr: Vec<TractionTest>,
    pub set_res: serde_json::Value,
    pub res: serde_json::Value,
}

/// A traction test of a sample; measurements are single-precision bits.
#[derive(Clone, Copy, Debug, PartialEq, Eq, Structural)]
pub struct TractionTest {
    pub massa: Option<u32>,
    pub l: Option<u32>,
    pub s: Option<u32>,
    pub b: Option<u32>,
    pub f02: bool,
    pub fy: Option<u32>,
    pub ft: Option<u32>,
    pub lu: Option<u32>,
}

/// The number of traction tests in the samples.
pub open spec fn traction_count(samples: Seq<Sample>) -> nat
    decreases samples.len(),
{
    if samples.len() == 0 {
        0
    } else {
        traction_count(samples.drop_last()) + samples.last().tr@.len()
    }
}

/// The traction tests of the samples, sample after sample.
pub open spec fn tests_of(samples: Seq<Sample>) -> Seq<TractionTest>
    decreases samples.len(),
{
    if samples.len() == 0 {
        seq![]
    } else {
        tests_of(samples.drop_last()) + samples.last().tr@
    }
}

proof fn lemma_tests_of_len(samples: Seq<Sample>)
    ensures
        tests_of(samples).len() == traction_count(samples),
    decreases samples.len(),
{
    if samples.len() > 0 {
        lemma_tests_of_len(samples.drop_last());
    }
}

/// A traction test filled from a selected row: the machine's sides,
/// strengths and F02 replace the test's; mass, length and elongation stay.
/// An empty row keeps the test as it was.
pub open spec fn merged_test(old: TractionTest, row: Option<TractionResult>) -> TractionTest {
    match row {
        Some(res) => TractionTest {
            massa: old.massa,
            l: old.l,
            s: Some(res.side_a),
            b: Some(res.side_b),
            f02: res.f02,
            fy: Some(res.fy),
            ft: Some(res.ft),
            lu: old.lu,
        },
        None => old,
    }
}

/// The rows that belong to the sample at `k`: as many as it has tests,
/// after those of the samples before it.
pub open spec fn rows_of_sample(samples: Seq<Sample>, rows: Seq<Option<TractionResult>>, k: int) -> Seq<
    Option<TractionResult>,
> {
    let off = traction_count(samples.take(k)) as int;
    rows.subrange(off, off + samples[k].tr@.len())
}

/// The sample at `k` of `result` is the sample at `k` of `samples` filled
/// from its rows: its tests merged one by one, its date that of its rows.
pub open spec fn sample_rebuilt(
    samples: Seq<Sample>,
    rows: Seq<Option<TractionResult>>,
    result: Seq<Sample>,
    k: int,
) -> bool {
    let s = samples[k];
    let own = rows_of_sample(samples, rows, k);
    let r = result[k];
    &&& opt_text(r.data_tr) == average_date(own, opt_text(s.data_tr))
    &&& r.tr@ == Seq::new(s.tr@.len(), |i: int| merged_test(s.tr@[i], own[i]))
    &&& r.bda == s.bda
    &&& r.rid == s.rid
    &&& r.set_res == s.set_res
    &&& r.res == s.res
}

proof fn lemma_traction_count_prefix(samples: Seq<Sample>, k: int)
    requires
        0 <= k <= samples.len(),
    ensures
        traction_count(samples.take(k)) <= traction_count(samples),
    decreases samples.len() - k,
{
    if k < samples.len() {
        lemma_traction_count_prefix(samples, k + 1);
        assert(samples.take(k + 1).drop_last() =~= samples.take(k));
    } else {
        assert(samples.take(k) =~= samples);
    }
}

/// Samples whose tests are merged one by one from consecutive rows have
/// their tests, taken sample after sample, merged from the rows in order.
proof fn lemma_tests_merged(samples: Seq<Sample>, rows: Seq<Option<TractionResult>>, result: Seq<Sample>)
    requires
        result.len() == samples.len(),
        rows.len() >= traction_count(samples),
        forall|k: int|
            0 <= k < samples.len() ==> #[trigger] result[k].tr@ == Seq::new(
                samples[k].tr@.len(),
                |i: int| merged_test(samples[k].tr@[i], rows_of_sample(samples, rows, k)[i]),
            ),
    ensures
        tests_of(result).len() == tests_of(samples).len(),
        forall|j: int|
            0 <= j < tests_of(samples).len() ==> #[trigger] tests_of(result)[j] == merged_test(
                tests_of(samples)[j],
                rows[j],
            ),
    decreases samples.len(),
{
    lemma_tests_of_len(samples);
    if samples.len() > 0 {
        let n = samples.len() - 1;
        let a = samples.drop_last();
        let b = result.drop_last();
        lemma_tests_of_len(a);
        assert forall|k: int| 0 <= k < a.len() implies #[trigger] b[k].tr@ == Seq::new(
            a[k].tr@.len(),
            |i: int| merged_test(a[k].tr@[i], rows_of_sample(a, rows, k)[i]),
        ) by {
            assert(a.take(k) =~= samples.take(k));
            assert(result[k].tr@ == Seq::new(
                samples[k].tr@.len(),
                |i: int| merged_test(samples[k].tr@[i], rows_of_sample(samples, rows, k)[i]),
            ));
            assert(rows_of_sample(a, rows, k) == rows_of_sample(samples, rows, k));
        }
        lemma_tests_merged(a, rows, b);
        assert(samples.take(n) =~= a);
        assert(result[n].tr@ == Seq::new(
            samples[n].tr@.len(),
            |i: int| merged_test(samples[n].tr@[i], rows_of_sample(samples, rows, n)[i]),
        ));
        let off = tests_of(a).len() as int;
        assert forall|j: int| 0 <= j < tests_of(samples).len() implies #[trigger] tests_of(result)[j]
            == merged_test(tests_of(samples)[j], rows[j]) by {
            if j >= off {
                let i = j - off;
                assert(rows_of_sample(samples, rows, n)[i] == rows[j]);
                assert(tests_of(samples)[j] == samples[n].tr@[i]);
                assert(tests_of(result)[j] == result[n].tr@[i]);
            }
        }
    }
}

impl Minute {
    /// The number of traction tests in the minute.
    pub open spec fn tractions(&self) -> nat {
        traction_count(self.samples@)
    }

    /// Counts the traction tests of the minute.
    pub fn count_tractions(&self) -> (r: usize)
        requires
            self.tractions() <= usize::MAX,
        ensures
            r == self.tractions(),
    {
        let n = self.samples.len();
        let mut total: usize = 0;
        let mut k: usize = 0;
        while k < n
            invariant
                n == self.samples@.len(),
                k <= n,
                total == traction_count(self.samples@.take(k as int)),
                traction_count(self.samples@) <= usize::MAX,
            decreases n - k,
        {
            assert(self.samples@.take(k + 1).drop_last() =~= self.samples@.take(k as int));
            proof {
                lemma_traction_count_prefix(self.samples@, k + 1);
            }
            total = total + self.samples[k].tr.len();
            k = k + 1;
        }
        assert(self.samples@.take(n as int) =~= self.samples@);
        total
    }

    /// Fills the minute with the selected rows: the tests of each sample,
    /// in order, take the next rows (see `sample_rebuilt`).
    ///
    /// So the tests of the minute, sample after sample, match the rows one
    /// for one: each keeps its mass, length and elongation; one whose row
    /// holds a result takes its sides, strengths and F02, and one whose row
    /// is empty stays as it was.
    pub fn rebuild_with_tractions(self, new_tractions: Vec<Option<TractionResult>>) -> (r: Self)
        requires
            new_tractions@.len() >= self.tractions(),
        ensures
            r.samples@.len() == self.samples@.len(),
            forall|k: int|
                0 <= k < self.samples@.len() ==> #[trigger] sample_rebuilt(
                    self.samples@,
                    new_tractions@,
                    r.samples@,
                    k,
                ),
            tests_of(r.samples@).len() == tests_of(self.samples@).len(),
            forall|j: int|
                0 <= j < tests_of(self.samples@).len() ==> ({
                    let given = tests_of(self.samples@)[j];
                    let filled = #[trigger] tests_of(r.samples@)[j];
                    &&& filled.massa == given.massa
                    &&& filled.l == given.l
                    &&& filled.lu == given.lu
                    &&& match new_tractions@[j] {
                        Some(res) => {
                            &&& filled.s == Some(res.side_a)
                            &&& filled.b == Some(res.side_b)
                            &&& filled.f02 == res.f02
                            &&& filled.fy == Some(res.fy)
                            &&& filled.ft == Some(res.ft)
                        },
                        None => filled == given,
                    }
                }),
    {
        let ghost orig = self.samples@;
        let ghost rows0 = new_tractions@;
        let n = self.samples.len();
        let mut rest = self.samples;
        let mut new_tractions = new_tractions;
        let mut samples: Vec<Sample> = Vec::new();
        let mut k: usize = 0;
        while k < n
            invariant
                n == orig.len(),
                k <= n,
                rows0.len() >= traction_count(orig),
                rest@ == orig.subrange(k as int, n as int),
                new_tractions@ == rows0.subrange(
                    traction_count(orig.take(k as int)) as int,
                    rows0.len() as int,
                ),
                samples@.len() == k,
                forall|j: int| 0 <= j < k ==> #[trigger] sample_rebuilt(orig, rows0, samples@, j),
            decreases n - k,
        {
            proof {
                lemma_traction_count_prefix(orig, k + 1);
                assert(orig.take(k + 1).drop_last() =~= orig.take(k as int));
            }
            let sample = rest.remove(0);
            assert(sample == orig[k as int]);
            let ghost off = traction_count(orig.take(k as int)) as int;
            let ghost own = rows_of_sample(orig, rows0, k as int);
            let num_tr = sample.tr.len();
            let date = get_avg_timestamp(new_tractions.as_slice().split_at(num_tr).0, &sample.data_tr);
            assert(new_tractions@.subrange(0, num_tr as int) =~= own);
            assert(traction_count(orig.take(k + 1)) == off + num_tr);
            let mut tr: Vec<TractionTest> = Vec::new();
            let mut i: usize = 0;
            while i < num_tr
                invariant
                    num_tr == sample.tr@.len(),
                    i <= num_tr,
                    own.len() == num_tr,
                    0 <= off,
                    off + num_tr <= rows0.len(),
                    own == rows0.subrange(off, off + num_tr),
                    new_tractions@ == rows0.subrange(off + i, rows0.len() as int),
                    tr@ == Seq::new(i as nat, |j: int| merged_test(sample.tr@[j], own[j])),
                decreases num_tr - i,
            {
                let row = new_tractions.remove(0);
                assert(row == own[i as int]);
                let old = sample.tr[i];
                let test = match row {
                    Some(res) => TractionTest {
                        massa: old.massa,
                        l: old.l,
                        s: Some(res.side_a),
                        b: Some(res.side_b),
                        f02: res.f02,
                        fy: Some(res.fy),
                        ft: Some(res.ft),
                        lu: old.lu,
                    },
                    None => old,
                };
                tr.push(test);
                assert(new_tractions@ =~= rows0.subrange(off + i + 1, rows0.len() as int));
                assert(tr@ =~= Seq::new((i + 1) as nat, |j: int| merged_test(sample.tr@[j], own[j])));
                i = i + 1;
            }
            assert(new_tractions@ =~= rows0.subrange(
                traction_count(orig.take(k + 1)) as int,
                rows0.len() as int,
            ));
            let ghost before = samples@;
            samples.push(Sample { data_tr: date, tr, ..sample });
            assert(sample_rebuilt(orig, rows0, samples@, k as int));
            assert forall|j: int| 0 <= j < k + 1 implies #[trigger] sample_rebuilt(
                orig,
                rows0,
                samples@,
                j,
            ) by {
                if j < k {
                    assert(samples@[j] == before[j]);
                    assert(sample_rebuilt(orig, rows0, before, j));
                }
            }
            assert(rest@ =~= orig.subrange(k + 1, n as int));
            k = k + 1;
        }
        proof {
            assert forall|k: int| 0 <= k < orig.len() implies #[trigger] samples@[k].tr@ == Seq::new(
                orig[k].tr@.len(),
                |i: int| merged_test(orig[k].tr@[i], rows_of_sample(orig, rows0, k)[i]),
            ) by {
                assert(sample_rebuilt(orig, rows0, samples@, k));
            }
            lemma_tests_merged(orig, rows0, samples@);
        }
        Minute { samples }
    }
}

/// The columns shown for the CARP.LP results, as `(field, title)`.
pub open spec fn carp_columns() -> Seq<(Seq<char>, Seq<char>)> {
    seq![
        ("profile"@, "Profilo"@),
        ("id"@, "ID"@),
        ("quality"@, "Qualità"@),
        ("s"@, "Spessore"@),
        ("b"@, "Larghezza"@),
        ("f02"@, "F02"@),
        ("fy"@, "Fy"@),
        ("ft"@, "Ft"@),
        ("timestamp"@, "Timestamp"@),
        ("machine"@, "Macchina"@),
    ]
}

/// The columns shown for the CARP.LP results.
pub fn carp_column_names() -> (r: Vec<(&'static str, &'static str)>)
    ensures
        column_texts(r@) == carp_columns(),
{
    let mut r: Vec<(&'static str, &'static str)> = Vec::new();
    r.push(("profile", "Profilo"));
    r.push(("id", "ID"));
    r.push(("quality", "Qualità"));
    r.push(("s", "Spessore"));
    r.push(("b", "Larghezza"));
    r.push(("f02", "F02"));
    r.push(("fy", "Fy"));
    r.push(("ft", "Ft"));
    r.push(("timestamp", "Timestamp"));
    r.push(("machine", "Macchina"));
    assert(column_texts(r@) =~= carp_columns());
    r
}

/// The table offered for selection once the machines answered: the
/// profile tractions (type 1), in the order the machines gave them, padded
/// with spacers up to the number of tests in the minute; the message tells
/// of too many or too few tractions.
pub fn results_dialog(minute: &Minute, all_results: Vec<TractionResult>, message: ResponseMessage) -> (r:
    FrontendDialogData<TractionResult>)
    requires
        minute.tractions() <= usize::MAX,
    ensures
        ({
            let found = tractions_of_type(all_results@, 1);
            let wanted = minute.tractions();
            &&& found.len() > wanted ==> r.rows@ == found && r.message@ == joined(
                message@,
                MessageView { text: too_many_text(found.len(), wanted), severity: Severity::Warning },
            )
            &&& found.len() < wanted ==> r.rows@ == fitted_rows(found, wanted) && r.message@ == joined(
                message@,
                MessageView { text: too_few_text(found.len(), wanted), severity: Severity::Warning },
            )
            &&& found.len() == wanted ==> r.rows@ == found && r.message@ == message@
        }),
        forall|k: int|
            0 <= k < r.rows@.len() ==> (#[trigger] r.rows@[k] matches Some(t) ==> t.ty == 1),
        column_texts(r.column_names@) == carp_columns(),
        r.labels is None,
{
    let mut traction_results = filter_map_tractions(all_results, 1);
    let initial_tractions_count = minute.count_tractions();
    let mut message = message;
    add_traction_spacers(&mut traction_results, initial_tractions_count, &mut message);
    proof {
        let found = tractions_of_type(all_results@, 1);
        if found.len() < initial_tractions_count {
            assert(traction_results@ =~= fitted_rows(found, initial_tractions_count as nat));
        }
        assert forall|k: int| 0 <= k < traction_results@.len() implies (
        #[trigger] traction_results@[k] matches Some(t) ==> t.ty == 1) by {
            if k < found.len() {
                all_results@.lemma_filter_pred(type_is(1), k);
            }
        }
    }
    FrontendDialogData {
        rows: traction_results,
        column_names: carp_column_names(),
        message,
        labels: None,
    }
}

/// Completes the minute with the rows sent back: the rows are fitted to the
/// number of tests in the minute, then fill the minute in order.
pub fn complete_minute(test_data: Minute, rows: Vec<Option<TractionResult>>) -> (r: Minute)
    requires
        test_data.tractions() <= usize::MAX,
    ensures
        r.samples@.len() == test_data.samples@.len(),
        forall|k: int|
            0 <= k < test_data.samples@.len() ==> #[trigger] sample_rebuilt(
                test_data.samples@,
                fitted_rows(rows@, test_data.tractions()),
                r.samples@,
                k,
            ),
        tests_of(r.samples@).len() == tests_of(test_data.samples@).len(),
        forall|j: int|
            0 <= j < tests_of(test_data.samples@).len() ==> ({
                let given = tests_of(test_data.samples@)[j];
                let filled = #[trigger] tests_of(r.samples@)[j];
                &&& filled.massa == given.massa
                &&& filled.l == given.l
                &&& filled.lu == given.lu
                &&& if j < rows@.len() && rows@[j] is Some {
                    let res = rows@[j]->0;
                    &&& filled.s == Some(res.side_a)
                    &&& filled.b == Some(res.side_b)
                    &&& filled.f02 == res.f02
                    &&& filled.fy == Some(res.fy)
                    &&& filled.ft == Some(res.ft)
                } else {
                    filled == given
                }
            }),
{
    let minute_tractions = test_data.count_tractions();
    let ghost sent = rows@;
    let mut rows = rows;
    fit_rows(&mut rows, minute_tractions);
    proof {
        lemma_fitted_rows(sent, minute_tractions as nat);
        lemma_tests_of_len(test_data.samples@);
    }
    test_data.rebuild_with_tractions(rows)
}

/// The methods of the CARP.LP test type.
pub fn method_list() -> (r: MethodList)
    ensures
        r.test_name()@ == "CARP.LP"@,
        r.functions()@.len() == 1,
        r.functions()@[0]@.path == "get"@,
        r.functions()@[0]@.name == "Leggi i dati dalla macchina"@,
        r.functions()@[0]@.input == Some(MethodInput::RequestIdAndTestData),
        r.functions()@[0]@.output matches Some(MethodOutput::NewTestDataAfterSelection { callback })
            && callback@ == "get/callback"@,
{
    let method = Method::new("get", "Leggi i dati dalla macchina").with_input(
        MethodInput::RequestIdAndTestData,
    ).with_output(MethodOutput::NewTestDataAfterSelection { callback: String::from_str("get/callback") });
    let mut functions: Vec<Method> = Vec::new();
    functions.push(method);
    MethodList::new("CARP.LP", functions)
}

} // verus!
