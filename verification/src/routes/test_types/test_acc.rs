//! The ACC.TP test type: traction tests on reinforcing bars, grouped by
//! the lots of a minute.

use vstd::prelude::*;
use vstd::string::*;
use std::collections::HashMap;
use crate::measure::{
    denotes_whole, lemma_whole_bits_denotes, lemma_whole_round_trip, whole_bits, whole_part_u8,
    whole_u8_of_bits, Reading, ReadingView,
};
use crate::routes::test_types::utils::{
    average_date, column_texts, first_machine, fit_rows, fitted_rows, get_avg_timestamp,
    get_test_machine, lemma_first_machine, lemma_fitted_rows, results_of_type, type_is,
};
use crate::text::{contains_text, decimal, decimal_string, occurs_at};
use crate::utils::messages::{
    joined, lemma_join_keeps_both_texts, lemma_join_keeps_higher_severity, severity_rank, MessageView,
    ResponseMessage, Severity,
};
use crate::utils::steel_extractor::{copy_opt_text, opt_text, TractionResult, TractionView};
use crate::utils::{FrontendDialogData, Method, MethodInput, MethodList, MethodOutput};

verus! {

broadcast use vstd::std_specs::hash::group_hash_axioms;

/// The minute type in the beginning.
pub struct Minute {
    /// The single machine used by all samples in a minute
    ///
    /// Remove in favor of [`Group::machine`]
    pub macchina: Option<String>,
    pub groups: Vec<Group>,
}

/// A lot of the minute with its samples.
pub struct Group {
    pub sn: Option<u16>,
    pub date: Option<String>,
    pub samples: Vec<Sample>,
    pub steelworks: Option<u16>,
    pub format: Option<String>,
    pub machine: Option<String>,
}

/// A bar of a lot. Measurements are single-precision bits; the number and
/// the diameter keep how they are written, for the labels.
pub struct Sample {
    pub n: Option<Reading>,
    pub c: Option<String>,
    /// This is computed, and we only need it to sort the samples by diameter.
    pub diam: Reading,
    pub mass: Option<u32>,
    pub length: Option<u32>,
    pub fy: Option<u32>,
    pub f02: bool,
    pub ft: Option<u32>,
    pub lu: Option<u32>,
    pub pieg: Option<String>,
}

fn copy_opt_reading(o: &Option<Reading>) -> (r: Option<Reading>)
    ensures
        r == *o,
{
    match o {
        Some(x) => Some(x.clone()),
        None => None,
    }
}

impl Clone for Sample {
    fn clone(&self) -> (r: Self)
        ensures
            r == *self,
    {
        Sample {
            n: copy_opt_reading(&self.n),
            c: copy_opt_text(&self.c),
            diam: self.diam.clone(),
            mass: self.mass,
            length: self.length,
            fy: self.fy,
            f02: self.f02,
            ft: self.ft,
            lu: self.lu,
            pieg: copy_opt_text(&self.pieg),
        }
    }
}

/// The samples of the groups, group after group.
pub open spec fn samples_of(groups: Seq<Group>) -> Seq<Sample>
    decreases groups.len(),
{
    if groups.len() == 0 {
        seq![]
    } else {
        samples_of(groups.drop_last()) + groups.last().samples@
    }
}

proof fn lemma_samples_of_prefix(groups: Seq<Group>, k: int)
    requires
        0 <= k < groups.len(),
    ensures
        samples_of(groups.take(k + 1)) == samples_of(groups.take(k)) + groups[k].samples@,
        samples_of(groups.take(k + 1)).len() <= samples_of(groups).len(),
    decreases groups.len() - k,
{
    assert(groups.take(k + 1).drop_last() =~= groups.take(k));
    if k + 1 < groups.len() {
        lemma_samples_of_prefix(groups, k + 1);
    } else {
        assert(groups.take(k + 1) =~= groups);
    }
}

/// The label of a sample: `Ø{diameter}/{number} {class}`, with `0` for a
/// missing number and `?` for a missing class.
pub open spec fn sample_label(s: Sample) -> Seq<char> {
    "Ø"@ + s.diam.text@ + "/"@ + match s.n {
        Some(n) => n.text@,
        None => "0"@,
    } + " "@ + match s.c {
        Some(c) => c@,
        None => "?"@,
    }
}

/// The characters of each text.
pub open spec fn texts(s: Seq<String>) -> Seq<Seq<char>> {
    s.map_values(|x: String| x@)
}

/// The labels of the samples, in order.
pub open spec fn sample_labels(samples: Seq<Sample>) -> Seq<Seq<char>> {
    samples.map_values(|s: Sample| sample_label(s))
}

/// The number of the last occurrence of `d` in `ds`.
pub open spec fn occurrences(ds: Seq<u8>, d: u8) -> nat
    decreases ds.len(),
{
    if ds.len() == 0 {
        0
    } else {
        occurrences(ds.drop_last(), d) + if ds.last() == d {
            1nat
        } else {
            0nat
        }
    }
}

/// Each diameter numbered by how many times it occurred up to there (the
/// number kept in 16 bits).
pub open spec fn numbered(ds: Seq<u8>) -> Seq<(u8, u16)> {
    Seq::new(ds.len(), |k: int| (ds[k], (occurrences(ds.take(k + 1), ds[k]) % 0x1_0000) as u16))
}

proof fn lemma_occurrences_bound(ds: Seq<u8>, d: u8)
    ensures
        occurrences(ds, d) <= ds.len(),
    decreases ds.len(),
{
    if ds.len() > 0 {
        lemma_occurrences_bound(ds.drop_last(), d);
    }
}

proof fn lemma_numbered_push(ds: Seq<u8>, d: u8)
    ensures
        forall|x: u8| #[trigger] occurrences(ds.push(d), x) == occurrences(ds, x) + if x == d {
            1nat
        } else {
            0nat
        },
        numbered(ds.push(d)) == numbered(ds).push(
            (d, ((occurrences(ds, d) + 1) % 0x1_0000) as u16),
        ),
{
    let next = ds.push(d);
    assert(next.drop_last() =~= ds);
    assert forall|j: int| 0 <= j < ds.len() implies #[trigger] next.take(j + 1) == ds.take(j + 1) by {
        assert(next.take(j + 1) =~= ds.take(j + 1));
    }
    assert(next.take(next.len() as int) =~= next);
    assert(numbered(next) =~= numbered(ds).push((d, ((occurrences(ds, d) + 1) % 0x1_0000) as u16)));
}

/// The diameter classes of the samples (their diameters as whole numbers).
pub open spec fn diameter_classes(samples: Seq<Sample>) -> Seq<u8> {
    samples.map_values(|s: Sample| whole_part_u8(s.diam.bits))
}

impl Minute {
    /// The samples of the minute, lot after lot.
    pub open spec fn all_samples(&self) -> Seq<Sample> {
        samples_of(self.groups@)
    }

    /// Count the number of bars in the minute.
    pub fn count_bars(&self) -> (r: usize)
        requires
            self.all_samples().len() <= usize::MAX,
        ensures
            r == self.all_samples().len(),
    {
        let n = self.groups.len();
        let mut total: usize = 0;
        let mut k: usize = 0;
        while k < n
            invariant
                n == self.groups@.len(),
                k <= n,
                total == samples_of(self.groups@.take(k as int)).len(),
                samples_of(self.groups@).len() <= usize::MAX,
            decreases n - k,
        {
            proof {
                lemma_samples_of_prefix(self.groups@, k as int);
            }
            total = total + self.groups[k].samples.len();
            k = k + 1;
        }
        assert(self.groups@.take(n as int) =~= self.groups@);
        total
    }

    /// Gets the labels of the samples in the minute, as they are written in it.
    pub fn get_traction_labels(&self) -> (r: Vec<String>)
        ensures
            texts(r@) == sample_labels(self.all_samples()),
    {
        let n = self.groups.len();
        let mut labels: Vec<String> = Vec::new();
        let mut k: usize = 0;
        while k < n
            invariant
                n == self.groups@.len(),
                k <= n,
                texts(labels@) == sample_labels(samples_of(self.groups@.take(k as int))),
            decreases n - k,
        {
            proof {
                lemma_samples_of_prefix(self.groups@, k as int);
            }
            let group = &self.groups[k];
            let m = group.samples.len();
            let ghost before = samples_of(self.groups@.take(k as int));
            let mut i: usize = 0;
            while i < m
                invariant
                    m == group.samples@.len(),
                    i <= m,
                    texts(labels@) == sample_labels(before + group.samples@.take(i as int)),
                decreases m - i,
            {
                let s = &group.samples[i];
                let mut label = String::from_str("Ø");
                label.append(s.diam.text.as_str());
                label.append("/");
                match &s.n {
                    Some(x) => label.append(x.text.as_str()),
                    None => label.append("0"),
                }
                label.append(" ");
                match &s.c {
                    Some(c) => label.append(c.as_str()),
                    None => label.append("?"),
                }
                let ghost done = before + group.samples@.take(i as int);
                assert(before + group.samples@.take(i + 1) =~= done.push(group.samples@[i as int]));
                let ghost old_labels = labels@;
                labels.push(label);
                assert(texts(labels@) =~= texts(old_labels).push(label@));
                assert(sample_labels(done.push(group.samples@[i as int])) =~= sample_labels(done).push(
                    sample_label(group.samples@[i as int]),
                ));
                i = i + 1;
            }
            assert(group.samples@.take(m as int) =~= group.samples@);
            k = k + 1;
        }
        assert(self.groups@.take(n as int) =~= self.groups@);
        labels
    }

    /// Get the diameters in the minute, which determine the
    /// order in which the samples are loaded.
    pub fn get_numbered_diameters(&self) -> (r: Vec<(u8, u16)>)
        requires
            self.all_samples().len() <= usize::MAX,
        ensures
            r@ == numbered(diameter_classes(self.all_samples())),
    {
        let ghost all = diameter_classes(self.all_samples());
        let mut diameter_with_nums: Vec<(u8, u16)> = Vec::new();
        let mut last_diameter_num: HashMap<u8, u64> = HashMap::new();
        let n = self.groups.len();
        let mut k: usize = 0;
        while k < n
            invariant
                n == self.groups@.len(),
                k <= n,
                all == diameter_classes(samples_of(self.groups@)),
                ({
                    let done = diameter_classes(samples_of(self.groups@.take(k as int)));
                    &&& diameter_with_nums@ == numbered(done)
                    &&& forall|d: u8|
                        #![trigger last_diameter_num@.contains_key(d)]
                        last_diameter_num@.contains_key(d) == (occurrences(done, d) > 0)
                    &&& forall|d: u8|
                        last_diameter_num@.contains_key(d) ==> #[trigger] last_diameter_num@[d]
                            == occurrences(done, d)
                        &&& done.len() <= all.len()
                }),
                all.len() <= usize::MAX,
            decreases n - k,
        {
            proof {
                lemma_samples_of_prefix(self.groups@, k as int);
            }
            let group = &self.groups[k];
            let m = group.samples.len();
            let ghost before = samples_of(self.groups@.take(k as int));
            let mut i: usize = 0;
            while i < m
                invariant
                    m == group.samples@.len(),
                    i <= m,
                    all.len() <= usize::MAX,
                    ({
                        let done = diameter_classes(before + group.samples@.take(i as int));
                        &&& diameter_with_nums@ == numbered(done)
                        &&& forall|d: u8|
                            #![trigger last_diameter_num@.contains_key(d)]
                            last_diameter_num@.contains_key(d) == (occurrences(done, d) > 0)
                        &&& forall|d: u8|
                            last_diameter_num@.contains_key(d) ==> #[trigger] last_diameter_num@[d]
                                == occurrences(done, d)
                        &&& done.len() + m - i <= all.len()
                    }),
                decreases m - i,
            {
                let ghost done = diameter_classes(before + group.samples@.take(i as int));
                let ghost next = diameter_classes(before + group.samples@.take(i + 1));
                let diameter = whole_u8_of_bits(group.samples[i].diam.bits);
                proof {
                    assert(before + group.samples@.take(i + 1) =~= (before + group.samples@.take(
                        i as int,
                    )).push(group.samples@[i as int]));
                    assert(next =~= done.push(diameter));
                    lemma_numbered_push(done, diameter);
                    lemma_occurrences_bound(done, diameter);
                }
                let counted = last_diameter_num.get(&diameter);
                match counted {
                    None => {
                        last_diameter_num.insert(diameter, 1);
                        diameter_with_nums.push((diameter, 1u16));
                    },
                    Some(c) => {
                        let next_num: u64 = *c + 1;
                        last_diameter_num.insert(diameter, next_num);
                        diameter_with_nums.push((diameter, (next_num % 0x1_0000) as u16));
                    },
                }
                i = i + 1;
            }
            assert(group.samples@.take(m as int) =~= group.samples@);
            k = k + 1;
        }
        assert(self.groups@.take(n as int) =~= self.groups@);
        diameter_with_nums
    }
}

/// Where a result of time `t` goes among results ordered by time: after
/// every result that is not later than it.
pub open spec fn insert_position(sorted: Seq<TractionResult>, t: i64) -> nat
    decreases sorted.len(),
{
    if sorted.len() == 0 {
        0
    } else if sorted[0].timestamp > t {
        0
    } else {
        1 + insert_position(sorted.drop_first(), t)
    }
}

/// `x` inserted among results ordered by time, after those not later than it.
pub open spec fn insert_by_time(sorted: Seq<TractionResult>, x: TractionResult) -> Seq<
    TractionResult,
> {
    let p = insert_position(sorted, x.timestamp) as int;
    sorted.take(p) + seq![x] + sorted.skip(p)
}

/// The results ordered by time, results of the same time keeping their
/// order (a stable sort by timestamp).
pub open spec fn sorted_by_time(s: Seq<TractionResult>) -> Seq<TractionResult>
    decreases s.len(),
{
    if s.len() == 0 {
        s
    } else {
        insert_by_time(sorted_by_time(s.drop_last()), s.last())
    }
}

proof fn lemma_insert_position_bound(sorted: Seq<TractionResult>, t: i64)
    ensures
        insert_position(sorted, t) <= sorted.len(),
    decreases sorted.len(),
{
    if sorted.len() > 0 {
        lemma_insert_position_bound(sorted.drop_first(), t);
    }
}

proof fn lemma_sorted_by_time_len(s: Seq<TractionResult>)
    ensures
        sorted_by_time(s).len() == s.len(),
    decreases s.len(),
{
    if s.len() > 0 {
        lemma_sorted_by_time_len(s.drop_last());
        lemma_insert_position_bound(sorted_by_time(s.drop_last()), s.last().timestamp);
    }
}

/// The results are ordered by time.
pub open spec fn ordered_by_time(s: Seq<TractionResult>) -> bool {
    forall|i: int, j: int| 0 <= i < j < s.len() ==> s[i].timestamp <= s[j].timestamp
}

/// Whether a result is of time `t`.
pub open spec fn time_is(t: i64) -> spec_fn(TractionResult) -> bool {
    |r: TractionResult| r.timestamp == t
}

/// The results of time `t`, in their order.
pub open spec fn at_time(s: Seq<TractionResult>, t: i64) -> Seq<TractionResult> {
    s.filter(time_is(t))
}

proof fn lemma_insert_position_splits(sorted: Seq<TractionResult>, t: i64)
    requires
        ordered_by_time(sorted),
    ensures
        insert_position(sorted, t) <= sorted.len(),
        forall|i: int| 0 <= i < insert_position(sorted, t) ==> #[trigger] sorted[i].timestamp <= t,
        forall|i: int|
            insert_position(sorted, t) <= i < sorted.len() ==> #[trigger] sorted[i].timestamp > t,
    decreases sorted.len(),
{
    lemma_insert_position_bound(sorted, t);
    if sorted.len() > 0 {
        let rest = sorted.drop_first();
        assert(ordered_by_time(rest));
        lemma_insert_position_splits(rest, t);
        if sorted[0].timestamp <= t {
            assert forall|i: int| 0 <= i < insert_position(sorted, t) implies #[trigger] sorted[i].timestamp
                <= t by {
                if i > 0 {
                    assert(sorted[i] == rest[i - 1]);
                }
            }
            assert forall|i: int| insert_position(sorted, t) <= i < sorted.len() implies #[trigger] sorted[i].timestamp
                > t by {
                assert(sorted[i] == rest[i - 1]);
            }
        }
    }
}

proof fn lemma_insert_keeps_order(sorted: Seq<TractionResult>, x: TractionResult)
    requires
        ordered_by_time(sorted),
    ensures
        ordered_by_time(insert_by_time(sorted, x)),
        insert_by_time(sorted, x).to_multiset() == sorted.to_multiset().insert(x),
        forall|t: i64| #[trigger] at_time(insert_by_time(sorted, x), t) == at_time(sorted.push(x), t),
{
    let p = insert_position(sorted, x.timestamp) as int;
    lemma_insert_position_splits(sorted, x.timestamp);
    let a = sorted.take(p);
    let b = sorted.skip(p);
    let r = insert_by_time(sorted, x);
    assert(r == a + seq![x] + b);
    assert forall|i: int, j: int| 0 <= i < j < r.len() implies r[i].timestamp <= r[j].timestamp by {
        if j < p {
            assert(r[i] == sorted[i] && r[j] == sorted[j]);
        } else if j == p {
            assert(r[i] == sorted[i]);
        } else if i < p {
            assert(r[i] == sorted[i] && r[j] == sorted[j - 1]);
        } else if i == p {
            assert(r[j] == sorted[j - 1]);
        } else {
            assert(r[i] == sorted[i - 1] && r[j] == sorted[j - 1]);
        }
    }
    assert(sorted =~= a + b);
    broadcast use vstd::seq_lib::lemma_multiset_commutative;
    broadcast use vstd::multiset::group_multiset_axioms;
    assert(seq![x].to_multiset() =~= vstd::multiset::Multiset::singleton(x)) by {
        broadcast use vstd::seq_lib::group_to_multiset_ensures;
        assert(seq![x] =~= Seq::<TractionResult>::empty().push(x));
    }
    assert(r.to_multiset() =~= sorted.to_multiset().insert(x));
    assert forall|t: i64| #[trigger] at_time(r, t) == at_time(sorted.push(x), t) by {
        let pred = time_is(t);
        Seq::filter_distributes_over_add(a + seq![x], b, pred);
        Seq::filter_distributes_over_add(a, seq![x], pred);
        Seq::filter_distributes_over_add(a, b, pred);
        sorted.lemma_filter_push(x, pred);
        reveal_with_fuel(Seq::filter, 2);
        assert(seq![x].drop_last() =~= Seq::<TractionResult>::empty());
        if t == x.timestamp {
            assert forall|i: int| 0 <= i < b.len() implies !pred(#[trigger] b[i]) by {
                assert(b[i] == sorted[p + i]);
            }
            b.lemma_all_neg_filter_empty(pred);
            assert(b.filter(pred) =~= Seq::<TractionResult>::empty());
            assert(at_time(r, t) =~= at_time(sorted.push(x), t));
        } else {
            assert(seq![x].filter(pred) =~= Seq::<TractionResult>::empty());
            assert(at_time(r, t) =~= at_time(sorted.push(x), t));
        }
    }
}

/// Ordering by time orders the results by their timestamps, keeps every
/// result (as many times as it occurs), and keeps the results of the same
/// time in the order they came.
pub proof fn lemma_sorted_by_time(s: Seq<TractionResult>)
    ensures
        ordered_by_time(sorted_by_time(s)),
        sorted_by_time(s).to_multiset() == s.to_multiset(),
        forall|t: i64| #[trigger] at_time(sorted_by_time(s), t) == at_time(s, t),
    decreases s.len(),
{
    broadcast use vstd::seq_lib::group_to_multiset_ensures;
    if s.len() == 0 {
    } else {
        let prefix = s.drop_last();
        lemma_sorted_by_time(prefix);
        lemma_insert_keeps_order(sorted_by_time(prefix), s.last());
        assert(prefix.push(s.last()) =~= s);
        assert forall|t: i64| #[trigger] at_time(sorted_by_time(s), t) == at_time(s, t) by {
            let pred = time_is(t);
            let sp = sorted_by_time(prefix);
            let x = s.last();
            assert(sorted_by_time(s) == insert_by_time(sp, x));
            assert(at_time(insert_by_time(sp, x), t) == at_time(sp.push(x), t));
            assert(at_time(sp, t) == at_time(prefix, t));
            sp.lemma_filter_push(x, pred);
            prefix.lemma_filter_push(x, pred);
            assert(s == prefix.push(x));
        }
    }
}

/// Orders the results by time; results of the same time keep their order.
pub fn sort_by_timestamp(results: Vec<TractionResult>) -> (r: Vec<TractionResult>)
    ensures
        r@ == sorted_by_time(results@),
{
    let ghost orig = results@;
    let n = results.len();
    let mut rest = results;
    let mut out: Vec<TractionResult> = Vec::new();
    let mut i: usize = 0;
    while i < n
        invariant
            n == orig.len(),
            i <= n,
            rest@ == orig.subrange(i as int, n as int),
            out@ == sorted_by_time(orig.take(i as int)),
        decreases n - i,
    {
        let x = rest.remove(0);
        assert(x == orig[i as int]);
        let t = x.timestamp;
        let ghost sorted = out@;
        proof {
            lemma_sorted_by_time_len(orig.take(i as int));
        }
        let mut p: usize = 0;
        assert(sorted.skip(0) =~= sorted);
        while p < out.len() && out[p].timestamp <= t
            invariant
                out@ == sorted,
                p <= sorted.len(),
                insert_position(sorted, t) == p + insert_position(sorted.skip(p as int), t),
            decreases sorted.len() - p,
        {
            assert(sorted.skip(p as int).drop_first() =~= sorted.skip(p + 1));
            p = p + 1;
        }
        proof {
            if p < sorted.len() {
                assert(sorted.skip(p as int)[0] == sorted[p as int]);
            }
            assert(insert_position(sorted, t) == p);
            assert(orig.take(i + 1).drop_last() =~= orig.take(i as int));
        }
        out.insert(p, x);
        assert(out@ =~= insert_by_time(sorted, x));
        assert(rest@ =~= orig.subrange(i + 1, n as int));
        i = i + 1;
    }
    assert(orig.take(n as int) =~= orig);
    out
}

/// The results as seen by their contents.
pub open spec fn views(s: Seq<TractionResult>) -> Seq<TractionView> {
    s.map_values(|r: TractionResult| r@)
}

/// A row as seen by its contents.
pub open spec fn row_view(r: Option<TractionResult>) -> Option<TractionView> {
    match r {
        Some(x) => Some(x@),
        None => None,
    }
}

/// Rows as seen by their contents.
pub open spec fn rows_view(s: Seq<Option<TractionResult>>) -> Seq<Option<TractionView>> {
    s.map_values(|r: Option<TractionResult>| row_view(r))
}

/// Results as rows that hold them.
pub open spec fn some_rows(s: Seq<TractionView>) -> Seq<Option<TractionView>> {
    s.map_values(|v: TractionView| Some(v))
}

/// `count` labels `---`.
pub open spec fn dashes(count: nat) -> Seq<Seq<char>> {
    Seq::new(count, |i: int| "---"@)
}

/// Whether a result can stand for a bar of nominal diameter `d`: its
/// diameter, as a whole number, is `d` or one less.
pub open spec fn fits_bar(r: TractionView, d: u8) -> bool {
    whole_part_u8(r.diameter.bits) == d || whole_part_u8(r.diameter.bits) + 1 == d
}

/// `i` is the first result of the pool that fits a bar of diameter `d`.
pub open spec fn is_first_fit(pool: Seq<TractionView>, d: u8, i: int) -> bool {
    &&& 0 <= i < pool.len()
    &&& fits_bar(pool[i], d)
    &&& forall|j: int| 0 <= j < i ==> !fits_bar(#[trigger] pool[j], d)
}

/// The first result of the pool that fits a bar of diameter `d`, if any.
pub open spec fn first_fit(pool: Seq<TractionView>, d: u8) -> Option<int> {
    if exists|i: int| is_first_fit(pool, d, i) {
        Some(choose|i: int| is_first_fit(pool, d, i))
    } else {
        None
    }
}

/// How a bar is named in messages: `{diameter}/{number}`.
pub open spec fn bar_name(d: u8, num: u16) -> Seq<char> {
    decimal(d as nat) + "/"@ + decimal(num as nat)
}

/// The warning for a bar matched by a result one millimetre thinner.
pub open spec fn maybe_found_text(d: u8, num: u16, diameter: Seq<char>) -> Seq<char> {
    "La barra "@ + bar_name(d, num) + " è stata trovata (forse), ma con diametro "@ + diameter
}

/// The warning for a bar that no result matches.
pub open spec fn not_found_text(d: u8, num: u16) -> Seq<char> {
    "La barra "@ + bar_name(d, num) + " non è stata trovata"@
}

/// The error for machines that gave no bar at all.
pub open spec fn no_bars_text() -> Seq<char> {
    "Non è stata trovata nessuna barra tra i risultati"@
}

/// The error for results left over once every bar of the minute is matched.
pub open spec fn unmatched_text(count: nat) -> Seq<char> {
    "Ci sono "@ + decimal(count)
        + " barre non associate a quelle nella minuta; le troverai in fondo, con etichetta ---"@
}

/// A warning with the given text.
pub open spec fn warning(text: Seq<char>) -> MessageView {
    MessageView { text, severity: Severity::Warning }
}

/// An error with the given text.
pub open spec fn error(text: Seq<char>) -> MessageView {
    MessageView { text, severity: Severity::Error }
}

/// A result whose diameter is set to the nominal `d`.
pub open spec fn with_nominal_diameter(v: TractionView, d: u8) -> TractionView {
    TractionView { diameter: ReadingView { bits: whole_bits(d), text: decimal(d as nat) }, ..v }
}

/// The state of matching bars: the results not yet used, the rows made so
/// far, and the message.
pub struct Matching {
    pub pool: Seq<TractionView>,
    pub rows: Seq<Option<TractionView>>,
    pub message: MessageView,
}

/// Matches one bar of the minute, of diameter `d` and number `num`: the
/// first result that fits it leaves the pool and makes its row (with its
/// diameter set to `d`, and a warning, when it is one millimetre thinner);
/// with no such result the row is empty, with a warning unless the machines
/// gave no bar at all.
pub open spec fn match_bar(m: Matching, d: u8, num: u16, no_results: bool) -> Matching {
    match first_fit(m.pool, d) {
        Some(i) => {
            let bar = m.pool[i];
            let near = whole_part_u8(bar.diameter.bits) + 1 == d;
            Matching {
                pool: m.pool.remove(i),
                rows: m.rows.push(
                    Some(
                        if near {
                            with_nominal_diameter(bar, d)
                        } else {
                            bar
                        },
                    ),
                ),
                message: if near {
                    joined(m.message, warning(maybe_found_text(d, num, bar.diameter.text)))
                } else {
                    m.message
                },
            }
        },
        None => Matching {
            pool: m.pool,
            rows: m.rows.push(None),
            message: if no_results {
                m.message
            } else {
                joined(m.message, warning(not_found_text(d, num)))
            },
        },
    }
}

/// The bars of the minute matched in order.
pub open spec fn match_bars(bars: Seq<(u8, u16)>, start: Matching, no_results: bool) -> Matching
    decreases bars.len(),
{
    if bars.len() == 0 {
        start
    } else {
        match_bar(match_bars(bars.drop_last(), start, no_results), bars.last().0, bars.last().1, no_results)
    }
}

/// The number of rows that hold a result.
pub open spec fn filled_count(rows: Seq<Option<TractionView>>) -> nat
    decreases rows.len(),
{
    if rows.len() == 0 {
        0
    } else {
        filled_count(rows.drop_last()) + if rows.last() is Some {
            1nat
        } else {
            0nat
        }
    }
}

proof fn lemma_filled_count_some_rows(a: Seq<Option<TractionView>>, b: Seq<TractionView>)
    ensures
        filled_count(a + some_rows(b)) == filled_count(a) + b.len(),
    decreases b.len(),
{
    if b.len() == 0 {
        assert(a + some_rows(b) =~= a);
    } else {
        lemma_filled_count_some_rows(a, b.drop_last());
        assert((a + some_rows(b)).drop_last() =~= a + some_rows(b.drop_last()));
    }
}

proof fn lemma_first_fit_fits(pool: Seq<TractionView>, d: u8)
    ensures
        first_fit(pool, d) matches Some(i) ==> is_first_fit(pool, d, i),
{
    if exists|i: int| is_first_fit(pool, d, i) {
        let c = choose|i: int| is_first_fit(pool, d, i);
        assert(is_first_fit(pool, d, c));
    }
}

/// Matching the bars of a minute gives each bar one row, in order, after
/// the rows there were; no result is lost or doubled (the results placed
/// in rows and those left over are as many as there were to match); and a
/// row that holds a result is of its bar's diameter.
pub proof fn lemma_matching_conserves(bars: Seq<(u8, u16)>, start: Matching, no_results: bool)
    ensures
        ({
            let m = match_bars(bars, start, no_results);
            &&& m.rows.len() == start.rows.len() + bars.len()
            &&& m.rows.subrange(0, start.rows.len() as int) == start.rows
            &&& filled_count(m.rows) + m.pool.len() == filled_count(start.rows) + start.pool.len()
            &&& forall|k: int|
                0 <= k < bars.len() ==> (#[trigger] m.rows[start.rows.len() + k] matches Some(v)
                    ==> whole_part_u8(v.diameter.bits) == bars[k].0)
        }),
    decreases bars.len(),
{
    if bars.len() > 0 {
        let prev = match_bars(bars.drop_last(), start, no_results);
        lemma_matching_conserves(bars.drop_last(), start, no_results);
        let d = bars.last().0;
        let num = bars.last().1;
        let m = match_bar(prev, d, num, no_results);
        assert(m == match_bars(bars, start, no_results));
        lemma_first_fit_fits(prev.pool, d);
        assert(m.rows.drop_last() == prev.rows);
        assert(m.rows.subrange(0, start.rows.len() as int) =~= prev.rows.subrange(
            0,
            start.rows.len() as int,
        ));
        match first_fit(prev.pool, d) {
            Some(i) => {
                let bar = prev.pool[i];
                if whole_part_u8(bar.diameter.bits) + 1 == d {
                    lemma_whole_bits_denotes(d);
                    lemma_whole_round_trip(whole_bits(d), d);
                }
            },
            None => {},
        }
        assert forall|k: int| 0 <= k < bars.len() implies (#[trigger] m.rows[start.rows.len() + k] matches Some(
            v,
        ) ==> whole_part_u8(v.diameter.bits) == bars[k].0) by {
            if k < bars.len() - 1 {
                assert(m.rows[start.rows.len() + k] == prev.rows[start.rows.len() + k]);
                assert(bars[k] == bars.drop_last()[k]);
            }
        }
    }
}

/// Every result in the rows is a bar (type 0).
pub open spec fn rows_are_bars(rows: Seq<Option<TractionView>>) -> bool {
    forall|k: int| 0 <= k < rows.len() ==> (#[trigger] rows[k] matches Some(v) ==> v.ty == 0)
}

/// Every result of the pool is a bar (type 0).
pub open spec fn pool_is_bars(pool: Seq<TractionView>) -> bool {
    forall|k: int| 0 <= k < pool.len() ==> (#[trigger] pool[k]).ty == 0
}

/// Matching bars moves results from the pool to the rows without changing
/// their type: starting from bars only, only bars are placed.
pub proof fn lemma_matching_places_bars(bars: Seq<(u8, u16)>, start: Matching, no_results: bool)
    requires
        pool_is_bars(start.pool),
        rows_are_bars(start.rows),
    ensures
        pool_is_bars(match_bars(bars, start, no_results).pool),
        rows_are_bars(match_bars(bars, start, no_results).rows),
    decreases bars.len(),
{
    if bars.len() > 0 {
        let prev = match_bars(bars.drop_last(), start, no_results);
        lemma_matching_places_bars(bars.drop_last(), start, no_results);
        let d = bars.last().0;
        let m = match_bar(prev, d, bars.last().1, no_results);
        lemma_first_fit_fits(prev.pool, d);
        match first_fit(prev.pool, d) {
            Some(i) => {
                assert(prev.pool[i].ty == 0);
                assert forall|k: int| 0 <= k < m.pool.len() implies (#[trigger] m.pool[k]).ty == 0 by {
                    if k < i {
                        assert(m.pool[k] == prev.pool[k]);
                    } else {
                        assert(m.pool[k] == prev.pool[k + 1]);
                    }
                }
            },
            None => {},
        }
        assert forall|k: int| 0 <= k < m.rows.len() implies (#[trigger] m.rows[k] matches Some(v)
            ==> v.ty == 0) by {
            if k < prev.rows.len() {
                assert(m.rows[k] == prev.rows[k]);
            }
        }
    }
}

/// `v`, in the row of a bar of diameter `d`, is the result `x`: as it came
/// when its whole diameter is `d`, or with its diameter set to exactly `d`
/// when its whole diameter is one less.
pub open spec fn placed_from(x: TractionView, v: TractionView, d: u8) -> bool {
    ||| v == x && whole_part_u8(x.diameter.bits) == d
    ||| whole_part_u8(x.diameter.bits) + 1 == d && v == (TractionView { diameter: v.diameter, ..x })
        && denotes_whole(v.diameter.bits, d as nat) && v.diameter.text == decimal(d as nat)
}

proof fn lemma_fit_has_first(pool: Seq<TractionView>, d: u8, i: int)
    requires
        0 <= i < pool.len(),
        fits_bar(pool[i], d),
    ensures
        first_fit(pool, d) is Some,
    decreases i,
{
    if exists|j: int| 0 <= j < i && fits_bar(#[trigger] pool[j], d) {
        let j = choose|j: int| 0 <= j < i && fits_bar(#[trigger] pool[j], d);
        lemma_fit_has_first(pool, d, j);
    } else {
        assert(is_first_fit(pool, d, i));
    }
}

/// The message says `t` and is at least a warning.
pub open spec fn tells(m: MessageView, t: Seq<char>) -> bool {
    contains_text(m.text, t) && severity_rank(m.severity) >= 1
}

/// Joining a warning or an error to a message keeps what the message said,
/// and says the warning's text too.
proof fn lemma_joined_tells(a: MessageView, b: MessageView)
    requires
        severity_rank(b.severity) >= 1,
    ensures
        forall|t: Seq<char>| tells(a, t) ==> #[trigger] tells(joined(a, b), t),
        tells(joined(a, b), b.text),
{
    lemma_join_keeps_higher_severity(a, b);
    lemma_join_keeps_both_texts(a, b);
    let all = joined(a, b).text;
    assert forall|t: Seq<char>| tells(a, t) implies #[trigger] tells(joined(a, b), t) by {
        let at = choose|at: int| occurs_at(a.text, t, at);
        assert(all.subrange(at, at + t.len()) =~= a.text.subrange(at, at + t.len()));
        assert(occurs_at(all, t, at));
    }
    assert(occurs_at(all, b.text, all.len() - b.text.len()));
}

/// Matching takes every placed result out of the results it started with,
/// and places a result only in the row of a bar it fits: as it came, or
/// one millimetre thinner with its diameter set to the bar's. A result that
/// is left over fits none of the bars that got no row.
pub proof fn lemma_matching_draws_from_pool(bars: Seq<(u8, u16)>, start: Matching, no_results: bool)
    ensures
        ({
            let m = match_bars(bars, start, no_results);
            &&& forall|p: TractionView| #[trigger] m.pool.contains(p) ==> start.pool.contains(p)
            &&& forall|k: int|
                0 <= k < bars.len() ==> (#[trigger] m.rows[start.rows.len() + k] matches Some(v)
                    ==> exists|x: TractionView| #[trigger]
                    start.pool.contains(x) && placed_from(x, v, bars[k].0) && (whole_part_u8(
                        x.diameter.bits,
                    ) + 1 == bars[k].0 ==> tells(
                        m.message,
                        maybe_found_text(bars[k].0, bars[k].1, x.diameter.text),
                    )))
            &&& forall|k: int, p: TractionView|
                0 <= k < bars.len() && #[trigger] m.rows[start.rows.len() + k] is None
                    && #[trigger] m.pool.contains(p) ==> whole_part_u8(p.diameter.bits) != bars[k].0
                    && whole_part_u8(p.diameter.bits) + 1 != bars[k].0
            &&& forall|k: int|
                0 <= k < bars.len() && #[trigger] m.rows[start.rows.len() + k] is None && !no_results
                    ==> tells(m.message, not_found_text(bars[k].0, bars[k].1))
            &&& forall|t: Seq<char>| tells(start.message, t) ==> #[trigger] tells(m.message, t)
            &&& severity_rank(m.message.severity) >= severity_rank(start.message.severity)
        }),
    decreases bars.len(),
{
    lemma_matching_conserves(bars, start, no_results);
    if bars.len() > 0 {
        let prev = match_bars(bars.drop_last(), start, no_results);
        lemma_matching_draws_from_pool(bars.drop_last(), start, no_results);
        lemma_matching_conserves(bars.drop_last(), start, no_results);
        let d = bars.last().0;
        let num = bars.last().1;
        let m = match_bar(prev, d, num, no_results);
        assert(m == match_bars(bars, start, no_results));
        lemma_first_fit_fits(prev.pool, d);
        let last = start.rows.len() + bars.len() - 1;
        assert(prev.rows.len() == last);
        assert forall|p: TractionView| #[trigger] m.pool.contains(p) implies prev.pool.contains(p) by {
            if let Some(i) = first_fit(prev.pool, d) {
                let j = choose|j: int| 0 <= j < m.pool.len() && m.pool[j] == p;
                if j < i {
                    assert(prev.pool[j] == p);
                } else {
                    assert(prev.pool[j + 1] == p);
                }
            }
        }
        let said = match first_fit(prev.pool, d) {
            Some(i) => maybe_found_text(d, num, prev.pool[i].diameter.text),
            None => not_found_text(d, num),
        };
        if m.message != prev.message {
            lemma_joined_tells(prev.message, warning(said));
        }
        assert(forall|t: Seq<char>| tells(prev.message, t) ==> #[trigger] tells(m.message, t));
        lemma_join_keeps_higher_severity(prev.message, warning(said));
        assert forall|k: int|
            0 <= k < bars.len() implies (#[trigger] m.rows[start.rows.len() + k] matches Some(v)
            ==> exists|x: TractionView| #[trigger]
            start.pool.contains(x) && placed_from(x, v, bars[k].0) && (whole_part_u8(
                x.diameter.bits,
            ) + 1 == bars[k].0 ==> tells(
                m.message,
                maybe_found_text(bars[k].0, bars[k].1, x.diameter.text),
            ))) by {
            if k < bars.len() - 1 {
                assert(m.rows[start.rows.len() + k] == prev.rows[start.rows.len() + k]);
                assert(bars[k] == bars.drop_last()[k]);
                if let Some(v) = m.rows[start.rows.len() + k] {
                    let x = choose|x: TractionView| #[trigger]
                        start.pool.contains(x) && placed_from(x, v, bars[k].0) && (whole_part_u8(
                            x.diameter.bits,
                        ) + 1 == bars[k].0 ==> tells(
                            prev.message,
                            maybe_found_text(bars[k].0, bars[k].1, x.diameter.text),
                        ));
                    assert(tells(prev.message, maybe_found_text(bars[k].0, bars[k].1, x.diameter.text))
                        ==> tells(m.message, maybe_found_text(bars[k].0, bars[k].1, x.diameter.text)));
                }
            } else {
                if let Some(i) = first_fit(prev.pool, d) {
                    let x = prev.pool[i];
                    assert(prev.pool.contains(x));
                    assert(start.pool.contains(x));
                    if whole_part_u8(x.diameter.bits) + 1 == d {
                        lemma_whole_bits_denotes(d);
                        assert(placed_from(x, with_nominal_diameter(x, d), d));
                        assert(tells(m.message, maybe_found_text(d, num, x.diameter.text)));
                    } else {
                        assert(placed_from(x, x, d));
                    }
                }
            }
        }
        assert forall|k: int|
            0 <= k < bars.len() && #[trigger] m.rows[start.rows.len() + k] is None && !no_results
                implies tells(m.message, not_found_text(bars[k].0, bars[k].1)) by {
            if k < bars.len() - 1 {
                assert(m.rows[start.rows.len() + k] == prev.rows[start.rows.len() + k]);
                assert(bars[k] == bars.drop_last()[k]);
                assert(tells(prev.message, not_found_text(bars[k].0, bars[k].1)));
            }
        }
        assert forall|k: int, p: TractionView|
            0 <= k < bars.len() && #[trigger] m.rows[start.rows.len() + k] is None
                && #[trigger] m.pool.contains(p) implies whole_part_u8(p.diameter.bits) != bars[k].0
            && whole_part_u8(p.diameter.bits) + 1 != bars[k].0 by {
            assert(prev.pool.contains(p));
            if k < bars.len() - 1 {
                assert(m.rows[start.rows.len() + k] == prev.rows[start.rows.len() + k]);
                assert(bars[k] == bars.drop_last()[k]);
            } else {
                let j = choose|j: int| 0 <= j < prev.pool.len() && prev.pool[j] == p;
                if fits_bar(prev.pool[j], d) {
                    lemma_fit_has_first(prev.pool, d, j);
                }
            }
        }
    }
}

/// The results of the pool are in order of time.
pub open spec fn pool_in_time(pool: Seq<TractionView>) -> bool {
    forall|i: int, j: int| 0 <= i < j < pool.len() ==> #[trigger] pool[i].timestamp <= #[trigger] pool[j].timestamp
}

/// Keeping some of the results ordered by time keeps them ordered by time.
proof fn lemma_filter_in_time(s: Seq<TractionResult>, pred: spec_fn(TractionResult) -> bool)
    requires
        ordered_by_time(s),
    ensures
        pool_in_time(views(s.filter(pred))),
    decreases s.len(),
{
    if s.len() > 0 {
        let prefix = s.drop_last();
        assert(ordered_by_time(prefix));
        lemma_filter_in_time(prefix, pred);
        assert(prefix.push(s.last()) =~= s);
        prefix.lemma_filter_push(s.last(), pred);
        let f = prefix.filter(pred);
        let out = views(s.filter(pred));
        if pred(s.last()) {
            assert forall|i: int, j: int| 0 <= i < j < out.len() implies #[trigger] out[i].timestamp
                <= #[trigger] out[j].timestamp by {
                assert(out[i] == f[i]@);
                assert(f.contains(f[i]));
                prefix.lemma_filter_contains_rev(pred, f[i]);
                let a = prefix.lemma_contains_to_index(f[i]);
                assert(s[a] == f[i]);
                if j < f.len() {
                    assert(out[j] == f[j]@);
                    assert(views(f)[i] == f[i]@ && views(f)[j] == f[j]@);
                } else {
                    assert(out[j] == s.last()@);
                    assert(s[s.len() - 1] == s.last());
                }
            }
        } else {
            assert(out =~= views(f));
        }
    }
}

/// Matching takes results in order of time: what a bar is given is not
/// later than any result it fits that is still unused afterwards, and two
/// bars of the same diameter are given results in order of time.
pub proof fn lemma_matching_in_time(bars: Seq<(u8, u16)>, start: Matching, no_results: bool)
    requires
        pool_in_time(start.pool),
    ensures
        ({
            let m = match_bars(bars, start, no_results);
            &&& pool_in_time(m.pool)
            &&& forall|k: int, p: TractionView|
                0 <= k < bars.len() && #[trigger] m.pool.contains(p) && fits_bar(p, bars[k].0) ==> (
                #[trigger] m.rows[start.rows.len() + k] matches Some(v) ==> v.timestamp
                    <= p.timestamp)
            &&& forall|k1: int, k2: int|
                0 <= k1 < k2 < bars.len() && bars[k1].0 == bars[k2].0 ==> (
                #[trigger] m.rows[start.rows.len() + k1] matches Some(v1) ==> (
                #[trigger] m.rows[start.rows.len() + k2] matches Some(v2) ==> v1.timestamp
                    <= v2.timestamp))
        }),
    decreases bars.len(),
{
    lemma_matching_conserves(bars, start, no_results);
    if bars.len() > 0 {
        let prev = match_bars(bars.drop_last(), start, no_results);
        lemma_matching_in_time(bars.drop_last(), start, no_results);
        lemma_matching_conserves(bars.drop_last(), start, no_results);
        let d = bars.last().0;
        let num = bars.last().1;
        let m = match_bar(prev, d, num, no_results);
        assert(m == match_bars(bars, start, no_results));
        lemma_first_fit_fits(prev.pool, d);
        let last = start.rows.len() + bars.len() - 1;
        assert(prev.rows.len() == last);
        assert(pool_in_time(m.pool)) by {
            if let Some(i) = first_fit(prev.pool, d) {
                assert forall|a: int, b: int| 0 <= a < b < m.pool.len() implies #[trigger] m.pool[a].timestamp
                    <= #[trigger] m.pool[b].timestamp by {
                    let a2 = if a < i { a } else { a + 1 };
                    let b2 = if b < i { b } else { b + 1 };
                    assert(m.pool[a] == prev.pool[a2]);
                    assert(m.pool[b] == prev.pool[b2]);
                    assert(prev.pool[a2].timestamp <= prev.pool[b2].timestamp);
                }
            }
        }
        assert forall|p: TractionView| #[trigger] m.pool.contains(p) implies prev.pool.contains(p) by {
            if let Some(i) = first_fit(prev.pool, d) {
                let j = choose|j: int| 0 <= j < m.pool.len() && m.pool[j] == p;
                if j < i {
                    assert(prev.pool[j] == p);
                } else {
                    assert(prev.pool[j + 1] == p);
                }
            }
        }
        assert forall|k: int, p: TractionView|
            0 <= k < bars.len() && #[trigger] m.pool.contains(p) && fits_bar(p, bars[k].0) implies (
            #[trigger] m.rows[start.rows.len() + k] matches Some(v) ==> v.timestamp <= p.timestamp) by {
            assert(prev.pool.contains(p));
            if k < bars.len() - 1 {
                assert(m.rows[start.rows.len() + k] == prev.rows[start.rows.len() + k]);
                assert(bars[k] == bars.drop_last()[k]);
            } else if let Some(i) = first_fit(prev.pool, d) {
                let j = choose|j: int| 0 <= j < m.pool.len() && m.pool[j] == p;
                if j < i {
                    assert(prev.pool[j] == p);
                } else {
                    assert(prev.pool[j + 1] == p);
                    assert(prev.pool[i].timestamp <= prev.pool[j + 1].timestamp);
                }
            }
        }
        assert forall|k1: int, k2: int|
            0 <= k1 < k2 < bars.len() && bars[k1].0 == bars[k2].0 implies (
            #[trigger] m.rows[start.rows.len() + k1] matches Some(v1) ==> (
            #[trigger] m.rows[start.rows.len() + k2] matches Some(v2) ==> v1.timestamp
                <= v2.timestamp)) by {
            assert(m.rows[start.rows.len() + k1] == prev.rows[start.rows.len() + k1]);
            assert(bars[k1] == bars.drop_last()[k1]);
            if k2 < bars.len() - 1 {
                assert(m.rows[start.rows.len() + k2] == prev.rows[start.rows.len() + k2]);
                assert(bars[k2] == bars.drop_last()[k2]);
            } else if let Some(i) = first_fit(prev.pool, d) {
                let x = prev.pool[i];
                assert(prev.pool.contains(x));
                assert(fits_bar(x, bars[k1].0));
            }
        }
    }
}

/// The rows offered for selection, sent back unchanged, fill the bars of
/// the minute with the rows matched to them: the results left over after
/// them are dropped.
pub proof fn lemma_offered_rows_fill_the_bars(
    rows: Seq<Option<TractionResult>>,
    matched: Seq<Option<TractionView>>,
    rest: Seq<TractionView>,
)
    requires
        rows_view(rows) == matched + some_rows(rest),
    ensures
        rows_view(fitted_rows(rows, matched.len())) == matched,
{
    assert(rows.len() == rows_view(rows).len());
    assert(rows_view(fitted_rows(rows, matched.len())) =~= matched) by {
        assert(fitted_rows(rows, matched.len()) == rows.take(matched.len() as int));
        assert forall|k: int| 0 <= k < matched.len() implies rows_view(rows.take(
            matched.len() as int,
        ))[k] == matched[k] by {
            assert(rows_view(rows)[k] == (matched + some_rows(rest))[k]);
        }
    }
}

/// The columns shown for the ACC.TP results, as `(field, title)`.
pub open spec fn acc_columns() -> Seq<(Seq<char>, Seq<char>)> {
    seq![
        ("id"@, "ID"@),
        ("diameter"@, "Diametro"@),
        ("mass"@, "Massa"@),
        ("length"@, "Lunghezza"@),
        ("fy"@, "Fy"@),
        ("ft"@, "Ft"@),
        ("f02"@, "F02"@),
        ("timestamp"@, "Timestamp"@),
        ("machine"@, "Macchina"@),
    ]
}

/// The columns shown for the ACC.TP results.
pub fn acc_column_names() -> (r: Vec<(&'static str, &'static str)>)
    ensures
        column_texts(r@) == acc_columns(),
{
    let mut r: Vec<(&'static str, &'static str)> = Vec::new();
    r.push(("id", "ID"));
    r.push(("diameter", "Diametro"));
    r.push(("mass", "Massa"));
    r.push(("length", "Lunghezza"));
    r.push(("fy", "Fy"));
    r.push(("ft", "Ft"));
    r.push(("f02", "F02"));
    r.push(("timestamp", "Timestamp"));
    r.push(("machine", "Macchina"));
    assert(column_texts(r@) =~= acc_columns());
    r
}

fn fits_bar_exec(r: &TractionResult, d: u8) -> (b: bool)
    ensures
        b == fits_bar(r@, d),
{
    let w = whole_u8_of_bits(r.diameter.bits);
    w == d || (w as u16) + 1 == d as u16
}

fn bar_name_string(d: u8, num: u16) -> (r: String)
    ensures
        r@ == bar_name(d, num),
{
    let mut r = decimal_string(d as usize);
    r.append("/");
    r.append(decimal_string(num as usize).as_str());
    r
}

proof fn lemma_first_fit_is(pool: Seq<TractionView>, d: u8, i: int)
    requires
        is_first_fit(pool, d, i),
    ensures
        first_fit(pool, d) == Some(i),
{
    let c = choose|k: int| is_first_fit(pool, d, k);
    assert(is_first_fit(pool, d, c));
    if c < i {
        assert(!fits_bar(pool[c], d));
    } else if c > i {
        assert(!fits_bar(pool[i], d));
    }
}

proof fn lemma_no_fit(pool: Seq<TractionView>, d: u8)
    requires
        forall|j: int| 0 <= j < pool.len() ==> !fits_bar(#[trigger] pool[j], d),
    ensures
        first_fit(pool, d) is None,
{
    if exists|i: int| is_first_fit(pool, d, i) {
        let c = choose|k: int| is_first_fit(pool, d, k);
        assert(fits_bar(pool[c], d));
    }
}

/// The table offered for selection once the machines answered.
///
/// The results are ordered by time and only the bars (type 0) are kept;
/// then each bar of the minute, in order, takes the first result that fits
/// it (see `match_bar`); results left over come last, labelled `---`. The
/// message tells of what could not be matched.
///
/// So a bar is given only a received bar result that fits it: one of its
/// diameter as it came, or one a millimetre thinner with the diameter set
/// to the bar's. Bars of one diameter are given results in order of time,
/// none later than a left-over result that fits it, and a left-over result
/// fits none of the bars left empty.
pub fn results_dialog(minute: &Minute, test_results: Vec<TractionResult>, message: ResponseMessage) -> (r:
    FrontendDialogData<TractionResult>)
    requires
        minute.all_samples().len() <= usize::MAX,
    ensures
        ({
            let pool = views(sorted_by_time(test_results@).filter(type_is(0)));
            let no_results = pool.len() == 0;
            let start = Matching {
                pool,
                rows: seq![],
                message: if no_results {
                    joined(message@, error(no_bars_text()))
                } else {
                    message@
                },
            };
            let m = match_bars(numbered(diameter_classes(minute.all_samples())), start, no_results);
            &&& rows_view(r.rows@) == m.rows + some_rows(m.pool)
            &&& r.message@ == if m.pool.len() > 0 {
                joined(m.message, error(unmatched_text(m.pool.len())))
            } else {
                m.message
            }
            &&& filled_count(rows_view(r.rows@)) == pool.len()
            &&& rows_view(r.rows@).len() == numbered(diameter_classes(minute.all_samples())).len()
                + m.pool.len()
            &&& rows_are_bars(rows_view(r.rows@))
            &&& forall|k: int|
                0 <= k < numbered(diameter_classes(minute.all_samples())).len() ==> (
                #[trigger] rows_view(r.rows@)[k] matches Some(v) ==> whole_part_u8(v.diameter.bits)
                    == diameter_classes(minute.all_samples())[k])
            &&& forall|k: int|
                0 <= k < diameter_classes(minute.all_samples()).len() ==> (
                #[trigger] rows_view(r.rows@)[k] matches Some(v) ==> exists|j: int|
                    0 <= j < test_results@.len() && #[trigger] test_results@[j].ty == 0 && ({
                        let x = test_results@[j]@;
                        let d = diameter_classes(minute.all_samples())[k];
                        ||| v == x && whole_part_u8(x.diameter.bits) == d
                        ||| whole_part_u8(x.diameter.bits) + 1 == d && v == (TractionView {
                            diameter: v.diameter,
                            ..x
                        }) && denotes_whole(v.diameter.bits, d as nat) && v.diameter.text == decimal(
                            d as nat,
                        ) && contains_text(
                            r.message@.text,
                            maybe_found_text(
                                d,
                                numbered(diameter_classes(minute.all_samples()))[k].1,
                                x.diameter.text,
                            ),
                        ) && severity_rank(r.message@.severity) >= 1
                    }))
            &&& forall|k: int|
                0 <= k < diameter_classes(minute.all_samples()).len() && #[trigger] rows_view(
                    r.rows@,
                )[k] is None && (exists|j: int|
                    0 <= j < test_results@.len() && #[trigger] test_results@[j].ty == 0)
                    ==> contains_text(
                    r.message@.text,
                    not_found_text(
                        diameter_classes(minute.all_samples())[k],
                        numbered(diameter_classes(minute.all_samples()))[k].1,
                    ),
                ) && severity_rank(r.message@.severity) >= 1
            &&& (forall|j: int| 0 <= j < test_results@.len() ==> #[trigger] test_results@[j].ty != 0)
                ==> r.message@.severity == Severity::Error && contains_text(
                r.message@.text,
                no_bars_text(),
            )
            &&& r.rows@.len() > diameter_classes(minute.all_samples()).len() ==> r.message@.severity
                == Severity::Error && contains_text(
                r.message@.text,
                unmatched_text((r.rows@.len() - diameter_classes(minute.all_samples()).len()) as nat),
            )
            &&& forall|k: int, l: int|
                0 <= k < diameter_classes(minute.all_samples()).len() <= l < r.rows@.len()
                    && #[trigger] rows_view(r.rows@)[k] is None ==> (
                #[trigger] rows_view(r.rows@)[l] matches Some(v) ==> whole_part_u8(v.diameter.bits)
                    != diameter_classes(minute.all_samples())[k] && whole_part_u8(v.diameter.bits)
                    + 1 != diameter_classes(minute.all_samples())[k])
            &&& forall|k1: int, k2: int|
                0 <= k1 < k2 < diameter_classes(minute.all_samples()).len() && diameter_classes(
                    minute.all_samples(),
                )[k1] == diameter_classes(minute.all_samples())[k2] ==> (
                #[trigger] rows_view(r.rows@)[k1] matches Some(v1) ==> (
                #[trigger] rows_view(r.rows@)[k2] matches Some(v2) ==> v1.timestamp <= v2.timestamp))
            &&& forall|k: int, l: int|
                0 <= k < diameter_classes(minute.all_samples()).len() <= l < r.rows@.len() ==> (
                #[trigger] rows_view(r.rows@)[k] matches Some(v) ==> (
                #[trigger] rows_view(r.rows@)[l] matches Some(p) ==> (whole_part_u8(p.diameter.bits)
                    == diameter_classes(minute.all_samples())[k] || whole_part_u8(p.diameter.bits) + 1
                    == diameter_classes(minute.all_samples())[k] ==> v.timestamp <= p.timestamp)))
            &&& r.labels is Some
            &&& r.labels->0@.len() == r.rows@.len()
            &&& texts(r.labels->0@) == sample_labels(minute.all_samples()) + dashes(m.pool.len())
        }),
        column_texts(r.column_names@) == acc_columns(),
{
    let ghost test_results_in = test_results@;
    let ghost message_in = message;
    let test_results = sort_by_timestamp(test_results);
    let mut labels = minute.get_traction_labels();
    let mut pool = results_of_type(test_results, 0);
    let mut message = message;
    let no_results = pool.len() == 0;
    if no_results {
        message.append(ResponseMessage::new_error(String::from_str("Non è stata trovata nessuna barra tra i risultati")));
    }
    let minute_diameters = minute.get_numbered_diameters();
    let ghost start = Matching { pool: views(pool@), rows: seq![], message: message@ };
    let mut ordered_test_results: Vec<Option<TractionResult>> = Vec::new();
    let n = minute_diameters.len();
    let mut k: usize = 0;
    while k < n
        invariant
            n == minute_diameters@.len(),
            k <= n,
            ({
                let m = match_bars(minute_diameters@.take(k as int), start, no_results);
                &&& views(pool@) == m.pool
                &&& rows_view(ordered_test_results@) == m.rows
                &&& message@ == m.message
            }),
        decreases n - k,
    {
        let ghost m = match_bars(minute_diameters@.take(k as int), start, no_results);
        assert(minute_diameters@.take(k + 1).drop_last() =~= minute_diameters@.take(k as int));
        let (diameter, number) = minute_diameters[k];
        let mut idx: usize = 0;
        while idx < pool.len() && !fits_bar_exec(&pool[idx], diameter)
            invariant
                idx <= pool@.len(),
                forall|j: int| 0 <= j < idx ==> !fits_bar(#[trigger] views(pool@)[j], diameter),
            decreases pool@.len() - idx,
        {
            idx = idx + 1;
        }
        if idx < pool.len() {
            proof {
                lemma_first_fit_is(views(pool@), diameter, idx as int);
            }
            let ghost before = pool@;
            let mut bar = pool.remove(idx);
            assert(views(pool@) =~= views(before).remove(idx as int));
            let w = whole_u8_of_bits(bar.diameter.bits);
            if (w as u16) + 1 == diameter as u16 {
                let mut text = String::from_str("La barra ");
                text.append(bar_name_string(diameter, number).as_str());
                text.append(" è stata trovata (forse), ma con diametro ");
                text.append(bar.diameter.text.as_str());
                message.append(ResponseMessage::new_warning(text));
                bar.diameter = Reading::whole(diameter);
            }
            let ghost rows_before = ordered_test_results@;
            ordered_test_results.push(Some(bar));
            assert(rows_view(ordered_test_results@) =~= rows_view(rows_before).push(Some(bar@)));
        } else {
            proof {
                lemma_no_fit(views(pool@), diameter);
            }
            if !no_results {
                let mut text = String::from_str("La barra ");
                text.append(bar_name_string(diameter, number).as_str());
                text.append(" non è stata trovata");
                message.append(ResponseMessage::new_warning(text));
            }
            let ghost rows_before = ordered_test_results@;
            ordered_test_results.push(None);
            assert(rows_view(ordered_test_results@) =~= rows_view(rows_before).push(None));
        }
        k = k + 1;
    }
    assert(minute_diameters@.take(n as int) =~= minute_diameters@);
    let ghost m = match_bars(minute_diameters@, start, no_results);
    let ghost labels_before = labels@;
    let ghost rows_before = ordered_test_results@;
    let left = pool.len();
    if left > 0 {
        let mut text = String::from_str("Ci sono ");
        text.append(decimal_string(left).as_str());
        text.append(" barre non associate a quelle nella minuta; le troverai in fondo, con etichetta ---");
        message.append(ResponseMessage::new_error(text));
    }
    let ghost leftover = pool@;
    let mut i: usize = 0;
    while i < left
        invariant
            left == leftover.len(),
            i <= left,
            pool@ == leftover.subrange(i as int, left as int),
            rows_view(ordered_test_results@) == rows_view(rows_before) + some_rows(
                views(leftover.take(i as int)),
            ),
            texts(labels@) == texts(labels_before) + dashes(i as nat),
        decreases left - i,
    {
        let bar = pool.remove(0);
        assert(bar == leftover[i as int]);
        let ghost rows_now = ordered_test_results@;
        let ghost labels_now = labels@;
        ordered_test_results.push(Some(bar));
        labels.push(String::from_str("---"));
        assert(rows_view(ordered_test_results@) =~= rows_view(rows_now).push(Some(bar@)));
        assert(leftover.take(i + 1) =~= leftover.take(i as int).push(bar));
        assert(some_rows(views(leftover.take(i + 1))) =~= some_rows(views(leftover.take(i as int))).push(
            Some(bar@),
        ));
        assert(rows_view(ordered_test_results@) =~= rows_view(rows_before) + some_rows(
            views(leftover.take(i + 1)),
        ));
        assert(texts(labels@) =~= texts(labels_now).push("---"@));
        assert(texts(labels@) =~= texts(labels_before) + dashes((i + 1) as nat));
        assert(pool@ =~= leftover.subrange(i + 1, left as int));
        i = i + 1;
    }
    assert(leftover.take(left as int) =~= leftover);
    proof {
        lemma_matching_conserves(minute_diameters@, start, no_results);
        let sorted_bars = views(sorted_by_time(test_results_in).filter(type_is(0)));
        assert forall|j: int| 0 <= j < sorted_bars.len() implies (#[trigger] sorted_bars[j]).ty == 0 by {
            sorted_by_time(test_results_in).lemma_filter_pred(type_is(0), j);
        }
        lemma_matching_places_bars(minute_diameters@, start, no_results);
        assert forall|k: int| 0 <= k < rows_view(ordered_test_results@).len() implies (
        #[trigger] rows_view(ordered_test_results@)[k] matches Some(v) ==> v.ty == 0) by {
            if k >= m.rows.len() {
                assert(rows_view(ordered_test_results@)[k] == Some(m.pool[k - m.rows.len()]));
            }
        }
        assert(texts(labels@).len() == labels@.len());
        assert(rows_view(ordered_test_results@).len() == ordered_test_results@.len());
        lemma_filled_count_some_rows(m.rows, m.pool);
        assert(filled_count(start.rows) == 0);
        assert forall|k: int| 0 <= k < minute_diameters@.len() implies (
        #[trigger] rows_view(ordered_test_results@)[k] matches Some(v) ==> whole_part_u8(
            v.diameter.bits,
        ) == diameter_classes(minute.all_samples())[k]) by {
            assert(rows_view(ordered_test_results@)[k] == m.rows[0 + k]);
            assert(minute_diameters@[k].0 == diameter_classes(minute.all_samples())[k]);
        }
        lemma_matching_draws_from_pool(minute_diameters@, start, no_results);
        let classes = diameter_classes(minute.all_samples());
        let rows = rows_view(ordered_test_results@);
        let received = sorted_by_time(test_results_in).filter(type_is(0));
        assert(start.pool == views(received));
        lemma_sorted_by_time(test_results_in);
        let nums = numbered(classes);
        let fm = message@;
        if m.pool.len() > 0 {
            lemma_joined_tells(m.message, error(unmatched_text(m.pool.len())));
        }
        assert(forall|t: Seq<char>| tells(m.message, t) ==> #[trigger] tells(fm, t));
        assert forall|k: int| 0 <= k < classes.len() implies (#[trigger] rows[k] matches Some(v)
            ==> exists|j: int|
            0 <= j < test_results_in.len() && #[trigger] test_results_in[j].ty == 0 && placed_from(
                test_results_in[j]@,
                v,
                classes[k],
            ) && (whole_part_u8(test_results_in[j]@.diameter.bits) + 1 == classes[k] ==> tells(
                fm,
                maybe_found_text(classes[k], nums[k].1, test_results_in[j]@.diameter.text),
            ))) by {
            assert(rows[k] == m.rows[0 + k]);
            assert(minute_diameters@[k] == nums[k]);
            assert(minute_diameters@[k].0 == classes[k]);
            if let Some(v) = rows[k] {
                let x = choose|x: TractionView| #[trigger]
                    start.pool.contains(x) && placed_from(x, v, minute_diameters@[k].0) && (whole_part_u8(
                        x.diameter.bits,
                    ) + 1 == minute_diameters@[k].0 ==> tells(
                        m.message,
                        maybe_found_text(minute_diameters@[k].0, minute_diameters@[k].1, x.diameter.text),
                    ));
                let i = choose|i: int| 0 <= i < start.pool.len() && start.pool[i] == x;
                let y = received[i];
                assert(y@ == x);
                sorted_by_time(test_results_in).lemma_filter_pred(type_is(0), i);
                assert(received.contains(y));
                sorted_by_time(test_results_in).lemma_filter_contains_rev(type_is(0), y);
                vstd::seq_lib::to_multiset_contains(sorted_by_time(test_results_in), y);
                vstd::seq_lib::to_multiset_contains(test_results_in, y);
                assert(test_results_in.contains(y));
                let j = test_results_in.lemma_contains_to_index(y);
                assert(test_results_in[j].ty == 0 && placed_from(test_results_in[j]@, v, classes[k]));
                if whole_part_u8(x.diameter.bits) + 1 == classes[k] {
                    assert(tells(
                        fm,
                        maybe_found_text(classes[k], nums[k].1, test_results_in[j]@.diameter.text),
                    ));
                }
            }
        }
        assert forall|k: int|
            0 <= k < classes.len() && #[trigger] rows[k] is None && (exists|j: int|
                0 <= j < test_results_in.len() && #[trigger] test_results_in[j].ty == 0) implies tells(
            fm,
            not_found_text(classes[k], nums[k].1),
        ) by {
            assert(rows[k] == m.rows[0 + k]);
            assert(minute_diameters@[k] == nums[k]);
            let j = choose|j: int| 0 <= j < test_results_in.len() && #[trigger] test_results_in[j].ty == 0;
            let y = test_results_in[j];
            assert(test_results_in.contains(y));
            vstd::seq_lib::to_multiset_contains(sorted_by_time(test_results_in), y);
            vstd::seq_lib::to_multiset_contains(test_results_in, y);
            let a = sorted_by_time(test_results_in).lemma_contains_to_index(y);
            sorted_by_time(test_results_in).lemma_filter_contains(type_is(0), a);
            assert(received.len() > 0);
            assert(!no_results);
        }
        if forall|j: int| 0 <= j < test_results_in.len() ==> #[trigger] test_results_in[j].ty != 0 {
            if received.len() > 0 {
                sorted_by_time(test_results_in).lemma_filter_pred(type_is(0), 0);
                let y = received[0];
                assert(received.contains(y));
                sorted_by_time(test_results_in).lemma_filter_contains_rev(type_is(0), y);
                vstd::seq_lib::to_multiset_contains(sorted_by_time(test_results_in), y);
                vstd::seq_lib::to_multiset_contains(test_results_in, y);
                let j = test_results_in.lemma_contains_to_index(y);
                assert(test_results_in[j].ty == 0);
            }
            assert(no_results);
            lemma_joined_tells(message_in@, error(no_bars_text()));
            assert(tells(start.message, no_bars_text()));
            assert(tells(fm, no_bars_text()));
            lemma_join_keeps_higher_severity(message_in@, error(no_bars_text()));
            if m.pool.len() > 0 {
                lemma_join_keeps_higher_severity(m.message, error(unmatched_text(m.pool.len())));
            }
        }
        if m.pool.len() > 0 {
            lemma_join_keeps_higher_severity(m.message, error(unmatched_text(m.pool.len())));
            assert(tells(fm, unmatched_text(m.pool.len())));
        }
        assert forall|k: int, l: int|
            0 <= k < classes.len() <= l < rows.len() && #[trigger] rows[k] is None implies (
            #[trigger] rows[l] matches Some(v) ==> whole_part_u8(v.diameter.bits) != classes[k]
                && whole_part_u8(v.diameter.bits) + 1 != classes[k]) by {
            assert(rows[k] == m.rows[0 + k]);
            assert(minute_diameters@[k].0 == classes[k]);
            let p = m.pool[l - m.rows.len()];
            assert(rows[l] == Some(p));
            assert(m.pool.contains(p));
        }
        lemma_filter_in_time(sorted_by_time(test_results_in), type_is(0));
        lemma_matching_in_time(minute_diameters@, start, no_results);
        assert forall|k1: int, k2: int|
            0 <= k1 < k2 < classes.len() && classes[k1] == classes[k2] implies (
            #[trigger] rows[k1] matches Some(v1) ==> (#[trigger] rows[k2] matches Some(v2)
                ==> v1.timestamp <= v2.timestamp)) by {
            assert(rows[k1] == m.rows[0 + k1]);
            assert(rows[k2] == m.rows[0 + k2]);
            assert(minute_diameters@[k1].0 == classes[k1]);
            assert(minute_diameters@[k2].0 == classes[k2]);
        }
        assert forall|k: int, l: int| 0 <= k < classes.len() <= l < rows.len() implies (
        #[trigger] rows[k] matches Some(v) ==> (#[trigger] rows[l] matches Some(p) ==> (
        whole_part_u8(p.diameter.bits) == classes[k] || whole_part_u8(p.diameter.bits) + 1
            == classes[k] ==> v.timestamp <= p.timestamp))) by {
            assert(rows[k] == m.rows[0 + k]);
            assert(minute_diameters@[k].0 == classes[k]);
            let p = m.pool[l - m.rows.len()];
            assert(rows[l] == Some(p));
            assert(m.pool.contains(p));
        }
    }
    FrontendDialogData {
        rows: ordered_test_results,
        column_names: acc_column_names(),
        message,
        labels: Some(labels),
    }
}

/// The rows that belong to the lot at `k`: as many as it has samples,
/// after those of the lots before it.
pub open spec fn rows_of_group(groups: Seq<Group>, rows: Seq<Option<TractionResult>>, k: int) -> Seq<
    Option<TractionResult>,
> {
    let off = samples_of(groups.take(k)).len() as int;
    rows.subrange(off, off + groups[k].samples@.len())
}

/// `new` is the sample `old` filled from the row: with a result, its
/// strengths, F02, length and mass come from the result, elongation and
/// bending stay, the diameter is reset to `0.0` and number and class are
/// cleared (they are computed again); with an empty row the sample is kept.
pub open spec fn sample_filled(old: Sample, row: Option<TractionResult>, new: Sample) -> bool {
    match row {
        Some(bar) => {
            &&& new.f02 == bar.f02
            &&& new.ft == Some(bar.ft)
            &&& new.fy == Some(bar.fy)
            &&& new.length == Some(bar.length)
            &&& new.mass == Some(bar.mass)
            &&& new.lu == old.lu
            &&& new.pieg == old.pieg
            &&& new.diam.bits == 0
            &&& new.diam.text@ == "0"@
            &&& new.n is None
            &&& new.c is None
        },
        None => new == old,
    }
}

/// The lot at `k` of `result` is the lot at `k` of `groups` filled from its
/// rows: each sample filled from its row, the date that of its rows, the
/// machine that of its first result (or the one it had).
pub open spec fn group_rebuilt(
    groups: Seq<Group>,
    rows: Seq<Option<TractionResult>>,
    result: Seq<Group>,
    k: int,
) -> bool {
    let g = groups[k];
    let own = rows_of_group(groups, rows, k);
    let r = result[k];
    &&& opt_text(r.date) == average_date(own, opt_text(g.date))
    &&& r.sn == g.sn
    &&& r.steelworks == g.steelworks
    &&& r.format == g.format
    &&& opt_text(r.machine) == match first_machine(own) {
        Some(m) => Some(m),
        None => opt_text(g.machine),
    }
    &&& r.samples@.len() == g.samples@.len()
    &&& forall|i: int|
        0 <= i < g.samples@.len() ==> sample_filled(g.samples@[i], own[i], #[trigger] r.samples@[i])
}

/// Each sample of the lot at `k` of `result` is filled from its row.
spec fn lot_filled(groups: Seq<Group>, rows: Seq<Option<TractionResult>>, result: Seq<Group>, k: int) -> bool {
    let own = rows_of_group(groups, rows, k);
    &&& result[k].samples@.len() == groups[k].samples@.len()
    &&& forall|i: int|
        0 <= i < groups[k].samples@.len() ==> sample_filled(
            groups[k].samples@[i],
            own[i],
            #[trigger] result[k].samples@[i],
        )
}

/// Lots filled sample by sample from consecutive rows fill the samples of
/// the minute, taken lot after lot, from the rows in order.
proof fn lemma_lots_filled(groups: Seq<Group>, rows: Seq<Option<TractionResult>>, result: Seq<Group>)
    requires
        result.len() == groups.len(),
        rows.len() >= samples_of(groups).len(),
        forall|k: int| 0 <= k < groups.len() ==> #[trigger] lot_filled(groups, rows, result, k),
    ensures
        samples_of(result).len() == samples_of(groups).len(),
        forall|j: int|
            0 <= j < samples_of(groups).len() ==> sample_filled(
                samples_of(groups)[j],
                rows[j],
                #[trigger] samples_of(result)[j],
            ),
    decreases groups.len(),
{
    if groups.len() > 0 {
        let n = groups.len() - 1;
        let a = groups.drop_last();
        let b = result.drop_last();
        assert forall|k: int| 0 <= k < a.len() implies #[trigger] lot_filled(a, rows, b, k) by {
            assert(a.take(k) =~= groups.take(k));
            assert(lot_filled(groups, rows, result, k));
            assert(rows_of_group(a, rows, k) == rows_of_group(groups, rows, k));
        }
        lemma_lots_filled(a, rows, b);
        assert(groups.take(n) =~= a);
        assert(lot_filled(groups, rows, result, n));
        let off = samples_of(a).len() as int;
        assert forall|j: int| 0 <= j < samples_of(groups).len() implies sample_filled(
            samples_of(groups)[j],
            rows[j],
            #[trigger] samples_of(result)[j],
        ) by {
            if j >= off {
                let i = j - off;
                assert(rows_of_group(groups, rows, n)[i] == rows[j]);
                assert(samples_of(groups)[j] == groups[n].samples@[i]);
                assert(samples_of(result)[j] == result[n].samples@[i]);
            }
        }
    }
}

impl Minute {
    /// Fills the minute with the selected rows: the samples of each lot, in
    /// order, take the next rows (see `group_rebuilt`); the minute's machine
    /// is that of the first result of all.
    ///
    /// So the samples of the minute, lot after lot, match the rows one for
    /// one: a sample whose row holds a result takes its strengths, F02,
    /// length and mass, whatever it held; one whose row is empty stays as it
    /// was. A lot takes the machine of the first result among its rows, and
    /// keeps its own only when none of its rows holds one.
    pub fn rebuild_with_bars(&self, bars: Vec<Option<TractionResult>>) -> (r: Minute)
        requires
            bars@.len() >= self.all_samples().len(),
        ensures
            opt_text(r.macchina) == first_machine(bars@),
            r.groups@.len() == self.groups@.len(),
            forall|k: int|
                0 <= k < self.groups@.len() ==> #[trigger] group_rebuilt(
                    self.groups@,
                    bars@,
                    r.groups@,
                    k,
                ),
            r.all_samples().len() == self.all_samples().len(),
            forall|j: int|
                0 <= j < self.all_samples().len() ==> ({
                    let given = self.all_samples()[j];
                    let filled = #[trigger] r.all_samples()[j];
                    match bars@[j] {
                        Some(bar) => {
                            &&& filled.ft == Some(bar.ft)
                            &&& filled.fy == Some(bar.fy)
                            &&& filled.f02 == bar.f02
                            &&& filled.length == Some(bar.length)
                            &&& filled.mass == Some(bar.mass)
                            &&& filled.lu == given.lu
                            &&& filled.pieg == given.pieg
                            &&& filled.diam.bits == 0
                            &&& filled.n is None
                            &&& filled.c is None
                        },
                        None => filled == given,
                    }
                }),
            forall|k: int|
                #![trigger r.groups@[k]]
                0 <= k < self.groups@.len() ==> ({
                    let off = samples_of(self.groups@.take(k)).len() as int;
                    let end = off + self.groups@[k].samples@.len();
                    &&& forall|j: int|
                        off <= j < end && #[trigger] bars@[j] is Some && (forall|h: int|
                            off <= h < j ==> #[trigger] bars@[h] is None) ==> opt_text(
                            r.groups@[k].machine,
                        ) == Some(bars@[j]->0.machine@)
                    &&& (forall|j: int| off <= j < end ==> #[trigger] bars@[j] is None) ==> opt_text(
                        r.groups@[k].machine,
                    ) == opt_text(self.groups@[k].machine)
                }),
    {
        let ghost orig = self.groups@;
        let ghost rows0 = bars@;
        let machine = get_test_machine(bars.as_slice());
        let mut bars = bars;
        let mut groups: Vec<Group> = Vec::new();
        let n = self.groups.len();
        let mut k: usize = 0;
        while k < n
            invariant
                n == orig.len(),
                orig == self.groups@,
                k <= n,
                rows0.len() >= samples_of(orig).len(),
                bars@ == rows0.subrange(samples_of(orig.take(k as int)).len() as int, rows0.len() as int),
                groups@.len() == k,
                forall|j: int| 0 <= j < k ==> #[trigger] group_rebuilt(orig, rows0, groups@, j),
            decreases n - k,
        {
            proof {
                lemma_samples_of_prefix(orig, k as int);
            }
            let group = &self.groups[k];
            let ghost off = samples_of(orig.take(k as int)).len() as int;
            let ghost own = rows_of_group(orig, rows0, k as int);
            let group_size = group.samples.len();
            let group_bars = bars.as_slice().split_at(group_size).0;
            assert(group_bars@ =~= own);
            let date = get_avg_timestamp(group_bars, &group.date);
            let group_machine = get_test_machine(group_bars);
            let mut samples: Vec<Sample> = Vec::new();
            let mut i: usize = 0;
            while i < group_size
                invariant
                    group_size == group.samples@.len(),
                    i <= group_size,
                    own.len() == group_size,
                    0 <= off,
                    off + group_size <= rows0.len(),
                    own == rows0.subrange(off, off + group_size),
                    bars@ == rows0.subrange(off + i, rows0.len() as int),
                    samples@.len() == i,
                    forall|j: int|
                        0 <= j < i ==> sample_filled(group.samples@[j], own[j], #[trigger] samples@[j]),
                decreases group_size - i,
            {
                let bar = bars.remove(0);
                assert(bar == own[i as int]);
                let old = &group.samples[i];
                let sample = match bar {
                    Some(bar) => Sample {
                        f02: bar.f02,
                        ft: Some(bar.ft),
                        fy: Some(bar.fy),
                        length: Some(bar.length),
                        mass: Some(bar.mass),
                        lu: old.lu,
                        pieg: copy_opt_text(&old.pieg),
                        diam: Reading::zero(),
                        n: None,
                        c: None,
                    },
                    None => old.clone(),
                };
                let ghost before = samples@;
                samples.push(sample);
                assert forall|j: int| 0 <= j < i + 1 implies sample_filled(
                    group.samples@[j],
                    own[j],
                    #[trigger] samples@[j],
                ) by {
                    if j < i {
                        assert(samples@[j] == before[j]);
                    }
                }
                assert(bars@ =~= rows0.subrange(off + i + 1, rows0.len() as int));
                i = i + 1;
            }
            let machine_or = match group_machine {
                Some(m) => Some(m),
                None => copy_opt_text(&group.machine),
            };
            let ghost before = groups@;
            groups.push(
                Group {
                    date,
                    sn: group.sn,
                    steelworks: group.steelworks,
                    format: copy_opt_text(&group.format),
                    samples,
                    machine: machine_or,
                },
            );
            assert(group_rebuilt(orig, rows0, groups@, k as int));
            assert forall|j: int| 0 <= j < k + 1 implies #[trigger] group_rebuilt(
                orig,
                rows0,
                groups@,
                j,
            ) by {
                if j < k {
                    assert(groups@[j] == before[j]);
                    assert(group_rebuilt(orig, rows0, before, j));
                }
            }
            assert(samples_of(orig.take(k + 1)).len() == off + group_size);
            k = k + 1;
        }
        proof {
            assert forall|k: int| 0 <= k < orig.len() implies #[trigger] lot_filled(
                orig,
                rows0,
                groups@,
                k,
            ) by {
                assert(group_rebuilt(orig, rows0, groups@, k));
            }
            lemma_lots_filled(orig, rows0, groups@);
            assert forall|k: int| 0 <= k < orig.len() implies ({
                let off = samples_of(orig.take(k)).len() as int;
                let end = off + orig[k].samples@.len();
                &&& forall|j: int|
                    off <= j < end && #[trigger] rows0[j] is Some && (forall|h: int|
                        off <= h < j ==> #[trigger] rows0[h] is None) ==> opt_text(
                        #[trigger] groups@[k].machine,
                    ) == Some(rows0[j]->0.machine@)
                &&& (forall|j: int| off <= j < end ==> #[trigger] rows0[j] is None) ==> opt_text(
                    groups@[k].machine,
                ) == opt_text(orig[k].machine)
            }) by {
                assert(group_rebuilt(orig, rows0, groups@, k));
                lemma_samples_of_prefix(orig, k);
                let off = samples_of(orig.take(k)).len() as int;
                let own = rows_of_group(orig, rows0, k);
                lemma_first_machine(own);
                assert forall|j: int|
                    off <= j < off + own.len() && #[trigger] rows0[j] is Some && (forall|h: int|
                        off <= h < j ==> #[trigger] rows0[h] is None) implies opt_text(
                    groups@[k].machine,
                ) == Some(rows0[j]->0.machine@) by {
                    assert(own[j - off] == rows0[j]);
                    assert forall|h: int| 0 <= h < j - off implies #[trigger] own[h] is None by {
                        assert(own[h] == rows0[off + h]);
                    }
                }
                if forall|j: int| off <= j < off + own.len() ==> #[trigger] rows0[j] is None {
                    assert forall|i: int| 0 <= i < own.len() implies #[trigger] own[i] is None by {
                        assert(own[i] == rows0[off + i]);
                    }
                }
            }
        }
        Minute { macchina: machine, groups }
    }
}

/// Completes the minute with the rows sent back: the rows are fitted to the
/// number of bars in the minute, then fill the minute in order.
pub fn complete_minute(test_data: &Minute, rows: Vec<Option<TractionResult>>) -> (r: Minute)
    requires
        test_data.all_samples().len() <= usize::MAX,
    ensures
        opt_text(r.macchina) == first_machine(fitted_rows(rows@, test_data.all_samples().len())),
        r.groups@.len() == test_data.groups@.len(),
        forall|k: int|
            0 <= k < test_data.groups@.len() ==> #[trigger] group_rebuilt(
                test_data.groups@,
                fitted_rows(rows@, test_data.all_samples().len()),
                r.groups@,
                k,
            ),
        r.all_samples().len() == test_data.all_samples().len(),
        forall|j: int|
            0 <= j < test_data.all_samples().len() ==> ({
                let given = test_data.all_samples()[j];
                let filled = #[trigger] r.all_samples()[j];
                if j < rows@.len() && rows@[j] is Some {
                    let bar = rows@[j]->0;
                    &&& filled.ft == Some(bar.ft)
                    &&& filled.fy == Some(bar.fy)
                    &&& filled.f02 == bar.f02
                    &&& filled.length == Some(bar.length)
                    &&& filled.mass == Some(bar.mass)
                    &&& filled.lu == given.lu
                    &&& filled.pieg == given.pieg
                } else {
                    filled == given
                }
            }),
{
    let minute_bars = test_data.count_bars();
    let ghost sent = rows@;
    let mut rows = rows;
    fit_rows(&mut rows, minute_bars);
    proof {
        lemma_fitted_rows(sent, minute_bars as nat);
    }
    test_data.rebuild_with_bars(rows)
}

/// The methods of the ACC.TP test type.
pub fn method_list() -> (r: MethodList)
    ensures
        r.test_name()@ == "ACC.TP"@,
        r.functions()@.len() == 1,
        r.functions()@[0]@.path == "get"@,
        r.functions()@[0]@.name == "Leggi i dati dalla macchina"@,
        r.functions()@[0]@.input == Some(MethodInput::RequestIdAndTestData),
        r.functions()@[0]@.output matches Some(MethodOutput::NewTestDataAfterSelection { callback })
            && callback@ == "get/callback"@,
{
    let method = Method::new("get", "Leggi i dati dalla macchina").with_input(
        MethodInput::RequestIdAndTestData,
    ).with_output(MethodOutput::NewTestDataAfterSelection { callback: String::from_str("get/callback") });
    let mut functions: Vec<Method> = Vec::new();
    functions.push(method);
    MethodList::new("ACC.TP", functions)
}

} // verus!
