//! Typed transaction records and the ordered statement.
//!
//! A record's equality and ordering are deliberately narrower than
//! structural: two records are equal when their operation date and
//! coverage amount match, and ordering looks at the operation date
//! alone. A statement sorts its records by operation date with a
//! stable sort and is read-only afterwards.

use vstd::prelude::*;
use vstd::seq_lib::group_seq_properties;

use crate::amount::Amount;
use crate::dates::date_le;
use crate::dates::date_le_exec;
use crate::dates::lemma_date_le_total;
use crate::dates::DocumentDate;
use crate::dates::OperationDate;

verus! {

/// One bank transaction, as mapped from one data row of the export.
#[derive(Clone, Debug)]
pub struct DboRecord {
    pub party_tax_id: String,
    pub party_bank_id: String,
    pub party_account: String,
    pub currency: String,
    pub operation_date: OperationDate,
    pub operation_code: String,
    pub counterparty_bank_id: String,
    pub payment_provider: String,
    pub counterparty_account: String,
    pub counterparty_tax_id: String,
    pub counterparty_name: String,
    pub document_number: String,
    pub document_date: DocumentDate,
    pub debit: Option<Amount>,
    pub credit: Option<Amount>,
    pub payment_purpose: String,
    pub coverage: Amount,
}

/// The mathematical value of a record: every text field as a character
/// sequence, dates and amounts as their plain values.
pub struct RecordView {
    pub party_tax_id: Seq<char>,
    pub party_bank_id: Seq<char>,
    pub party_account: Seq<char>,
    pub currency: Seq<char>,
    pub operation_date: OperationDate,
    pub operation_code: Seq<char>,
    pub counterparty_bank_id: Seq<char>,
    pub payment_provider: Seq<char>,
    pub counterparty_account: Seq<char>,
    pub counterparty_tax_id: Seq<char>,
    pub counterparty_name: Seq<char>,
    pub document_number: Seq<char>,
    pub document_date: DocumentDate,
    pub debit: Option<Amount>,
    pub credit: Option<Amount>,
    pub payment_purpose: Seq<char>,
    pub coverage: Amount,
}

impl View for DboRecord {
    type V = RecordView;

    open spec fn view(&self) -> RecordView {
        RecordView {
            party_tax_id: self.party_tax_id@,
            party_bank_id: self.party_bank_id@,
            party_account: self.party_account@,
            currency: self.currency@,
            operation_date: self.operation_date,
            operation_code: self.operation_code@,
            counterparty_bank_id: self.counterparty_bank_id@,
            payment_provider: self.payment_provider@,
            counterparty_account: self.counterparty_account@,
            counterparty_tax_id: self.counterparty_tax_id@,
            counterparty_name: self.counterparty_name@,
            document_number: self.document_number@,
            document_date: self.document_date,
            debit: self.debit,
            credit: self.credit,
            payment_purpose: self.payment_purpose@,
            coverage: self.coverage,
        }
    }
}

/// The narrow notion of record equality: the same economic event, that
/// is, equal operation date and equal coverage amount; every other
/// field may differ.
pub open spec fn records_equal(a: RecordView, b: RecordView) -> bool {
    a.operation_date == b.operation_date && a.coverage == b.coverage
}

/// Two records with equal operation date and equal coverage amount are
/// equal, whatever their other fields hold.
pub proof fn lemma_narrow_equality(a: RecordView, b: RecordView)
    requires
        a.operation_date == b.operation_date,
        a.coverage == b.coverage,
    ensures
        records_equal(a, b),
{
}

impl vstd::std_specs::cmp::PartialEqSpecImpl for DboRecord {
    open spec fn obeys_eq_spec() -> bool {
        true
    }

    open spec fn eq_spec(&self, other: &DboRecord) -> bool {
        records_equal(self@, other@)
    }
}

impl PartialEq for DboRecord {
    fn eq(&self, other: &DboRecord) -> (r: bool) {
        self.operation_date == other.operation_date && self.coverage == other.coverage
    }
}

impl Eq for DboRecord {}

/// How two records compare: by operation date alone.
pub open spec fn record_order(a: RecordView, b: RecordView) -> core::cmp::Ordering {
    if a.operation_date == b.operation_date {
        core::cmp::Ordering::Equal
    } else if date_le(a.operation_date, b.operation_date) {
        core::cmp::Ordering::Less
    } else {
        core::cmp::Ordering::Greater
    }
}

/// How two records compare is determined solely by their operation
/// dates: records with the same dates compare the same way, whatever
/// their other fields hold.
pub proof fn lemma_order_solely_by_date(
    a: RecordView,
    b: RecordView,
    a2: RecordView,
    b2: RecordView,
)
    requires
        a.operation_date == a2.operation_date,
        b.operation_date == b2.operation_date,
    ensures
        record_order(a, b) == record_order(a2, b2),
{
}

impl vstd::std_specs::cmp::PartialOrdSpecImpl for DboRecord {
    open spec fn obeys_partial_cmp_spec() -> bool {
        true
    }

    open spec fn partial_cmp_spec(&self, other: &DboRecord) -> Option<core::cmp::Ordering> {
        Some(record_order(self@, other@))
    }
}

impl PartialOrd for DboRecord {
    fn partial_cmp(&self, other: &DboRecord) -> (r: Option<core::cmp::Ordering>) {
        if self.operation_date == other.operation_date {
            Some(core::cmp::Ordering::Equal)
        } else if date_le_exec(&self.operation_date, &other.operation_date) {
            Some(core::cmp::Ordering::Less)
        } else {
            Some(core::cmp::Ordering::Greater)
        }
    }
}

/// The records stand in non-decreasing operation-date order.
pub open spec fn sorted_by_date(s: Seq<RecordView>) -> bool {
    forall|i: int, j: int|
        0 <= i < j < s.len() ==> date_le(s[i].operation_date, s[j].operation_date)
}

/// Where a record with date `x.operation_date` goes in the sorted
/// sequence `s`: directly before the first record with a strictly
/// later date, hence after every record with the same date.
pub open spec fn insert_pos(s: Seq<RecordView>, x: RecordView) -> int
    decreases s.len(),
{
    if s.len() == 0 {
        0
    } else if !date_le(s[0].operation_date, x.operation_date) {
        0
    } else {
        1 + insert_pos(s.drop_first(), x)
    }
}

/// `s` with `x` put at its insertion position.
pub open spec fn insert_sorted(s: Seq<RecordView>, x: RecordView) -> Seq<RecordView> {
    s.take(insert_pos(s, x)) + seq![x] + s.skip(insert_pos(s, x))
}

/// The stable sort of `s` by operation date: each record in turn is
/// inserted after all records with a date at or before its own.
pub open spec fn sort_by_date(s: Seq<RecordView>) -> Seq<RecordView>
    decreases s.len(),
{
    if s.len() == 0 {
        s
    } else {
        insert_sorted(sort_by_date(s.drop_last()), s.last())
    }
}

/// The records of `s` whose operation date is `d`, in their order in `s`.
pub open spec fn with_date(s: Seq<RecordView>, d: OperationDate) -> Seq<RecordView> {
    s.filter(|r: RecordView| r.operation_date == d)
}

pub proof fn lemma_insert_pos_bounds(s: Seq<RecordView>, x: RecordView)
    ensures
        0 <= insert_pos(s, x) <= s.len(),
        forall|j: int|
            0 <= j < insert_pos(s, x) ==> date_le(
                s[j].operation_date,
                x.operation_date,
            ),
        insert_pos(s, x) < s.len() ==> !date_le(
            s[insert_pos(s, x)].operation_date,
            x.operation_date,
        ),
    decreases s.len(),
{
    if s.len() != 0 && date_le(s[0].operation_date, x.operation_date) {
        lemma_insert_pos_bounds(s.drop_first(), x);
        assert forall|j: int| 0 <= j < insert_pos(s, x) implies date_le(
            s[j].operation_date,
            x.operation_date,
        ) by {
            if j > 0 {
                assert(s.drop_first()[j - 1] == s[j]);
            }
        }
        if insert_pos(s, x) < s.len() {
            assert(s.drop_first()[insert_pos(s, x) - 1] == s[insert_pos(s, x)]);
        }
    }
}

pub proof fn lemma_insert_sorted_ensures(s: Seq<RecordView>, x: RecordView)
    requires
        sorted_by_date(s),
    ensures
        insert_sorted(s, x).len() == s.len() + 1,
        sorted_by_date(insert_sorted(s, x)),
{
    lemma_insert_pos_bounds(s, x);
    let p = insert_pos(s, x);
    let t = insert_sorted(s, x);
    assert forall|i: int, j: int| 0 <= i < j < t.len() implies date_le(
        t[i].operation_date,
        t[j].operation_date,
    ) by {
        lemma_date_le_total(s[if p < s.len() { p } else { 0 }].operation_date, x.operation_date);
        if j < p {
            assert(t[i] == s[i] && t[j] == s[j]);
        } else if i < p && j == p {
            assert(t[i] == s[i] && t[j] == x);
        } else if i < p && j > p {
            assert(t[i] == s[i] && t[j] == s[j - 1]);
            lemma_date_le_total(s[j - 1].operation_date, x.operation_date);
        } else if i == p && j > p {
            assert(t[i] == x && t[j] == s[j - 1]);
            lemma_date_le_total(s[p].operation_date, x.operation_date);
            if j - 1 > p {
                assert(date_le(s[p].operation_date, s[j - 1].operation_date));
                crate::dates::lemma_date_le_trans(
                    x.operation_date,
                    s[p].operation_date,
                    s[j - 1].operation_date,
                );
            }
        } else {
            assert(t[i] == s[i - 1] && t[j] == s[j - 1]);
        }
    }
}

/// Sorting a one-record sequence changes nothing.
proof fn lemma_sort_singleton(s: Seq<RecordView>)
    requires
        s.len() == 1,
    ensures
        sort_by_date(s) == s,
{
    assert(s.drop_last() =~= Seq::<RecordView>::empty());
    assert(sort_by_date(Seq::<RecordView>::empty()) == Seq::<RecordView>::empty());
    assert(insert_pos(Seq::<RecordView>::empty(), s.last()) == 0);
    assert(insert_sorted(Seq::<RecordView>::empty(), s.last()) =~= s);
}

pub proof fn lemma_sort_by_date_sorted(s: Seq<RecordView>)
    ensures
        sort_by_date(s).len() == s.len(),
        sorted_by_date(sort_by_date(s)),
    decreases s.len(),
{
    if s.len() != 0 {
        lemma_sort_by_date_sorted(s.drop_last());
        lemma_insert_sorted_ensures(sort_by_date(s.drop_last()), s.last());
    }
}

/// Filtering a one-record sequence keeps or drops that record.
proof fn lemma_filter_singleton(x: RecordView, pred: spec_fn(RecordView) -> bool)
    ensures
        seq![x].filter(pred) == if pred(x) {
            seq![x]
        } else {
            Seq::<RecordView>::empty()
        },
{
    reveal(Seq::filter);
    let one = seq![x];
    assert(one.drop_last() =~= Seq::<RecordView>::empty());
    assert(one.last() == x);
    assert(Seq::<RecordView>::empty().filter(pred) =~= Seq::<RecordView>::empty());
    if pred(x) {
        assert(one.filter(pred) =~= seq![x]);
    } else {
        assert(one.filter(pred) =~= Seq::<RecordView>::empty());
    }
}

/// Inserting keeps every date class in order: the new record lands
/// after all records sharing its date, and no other class moves.
pub proof fn lemma_insert_sorted_with_date(s: Seq<RecordView>, x: RecordView, d: OperationDate)
    requires
        sorted_by_date(s),
    ensures
        with_date(insert_sorted(s, x), d) == with_date(s, d) + (if x.operation_date == d {
            seq![x]
        } else {
            Seq::<RecordView>::empty()
        }),
{
    broadcast use group_seq_properties;

    lemma_insert_pos_bounds(s, x);
    let p = insert_pos(s, x);
    let pred = |r: RecordView| r.operation_date == d;
    let front = s.take(p);
    let back = s.skip(p);
    let one = seq![x];
    assert(insert_sorted(s, x) == front + one + back);
    Seq::filter_distributes_over_add(front + one, back, pred);
    Seq::filter_distributes_over_add(front, one, pred);
    Seq::filter_distributes_over_add(front, back, pred);
    assert(front + back =~= s);
    lemma_filter_singleton(x, pred);
    if x.operation_date == d {
        // every record past the insertion position has a strictly
        // later date, so the class of `d` gains nothing from `back`
        assert forall|j: int| 0 <= j < back.len() implies !pred(back[j]) by {
            assert(back[j] == s[p + j]);
            lemma_date_le_total(s[p].operation_date, x.operation_date);
            if j > 0 {
                assert(date_le(s[p].operation_date, s[p + j].operation_date));
            }
            if pred(s[p + j]) {
                crate::dates::lemma_date_le_trans(
                    s[p].operation_date,
                    s[p + j].operation_date,
                    x.operation_date,
                );
            }
        }
        lemma_filter_all_false(back, pred);
        assert(with_date(insert_sorted(s, x), d) =~= with_date(s, d) + seq![x]);
    } else {
        assert(with_date(insert_sorted(s, x), d) =~= with_date(s, d));
    }
}

/// A sequence with no satisfying element filters to the empty sequence.
proof fn lemma_filter_all_false(s: Seq<RecordView>, pred: spec_fn(RecordView) -> bool)
    requires
        forall|j: int| 0 <= j < s.len() ==> !pred(s[j]),
    ensures
        s.filter(pred) =~= Seq::<RecordView>::empty(),
    decreases s.len(),
{
    reveal(Seq::filter);
    if s.len() == 0 {
        assert(s.filter(pred) =~= Seq::<RecordView>::empty());
    } else {
        lemma_filter_all_false(s.drop_last(), pred);
        assert(!pred(s.last()));
        assert(s.filter(pred) == s.drop_last().filter(pred));
    }
}

/// Sorting is stable: for each operation date, the records bearing it
/// come out in the same relative order they went in.
pub proof fn lemma_sort_by_date_stable(s: Seq<RecordView>, d: OperationDate)
    ensures
        with_date(sort_by_date(s), d) == with_date(s, d),
    decreases s.len(),
{
    broadcast use group_seq_properties;

    let pred = |r: RecordView| r.operation_date == d;
    if s.len() != 0 {
        lemma_sort_by_date_stable(s.drop_last(), d);
        lemma_sort_by_date_sorted(s.drop_last());
        lemma_insert_sorted_with_date(sort_by_date(s.drop_last()), s.last(), d);
        Seq::filter_distributes_over_add(s.drop_last(), seq![s.last()], pred);
        assert(s.drop_last() + seq![s.last()] =~= s);
        lemma_filter_singleton(s.last(), pred);
        assert(with_date(sort_by_date(s), d) =~= with_date(s, d));
    }
}

/// A collection of DBO records. Records in a statement are always
/// sorted by the operation date in ascending order; the sort is stable,
/// so records sharing a date keep the order the export gave them.
#[derive(Debug)]
pub struct DboStatement {
    records: Vec<DboRecord>,
}

impl View for DboStatement {
    type V = Seq<RecordView>;

    closed spec fn view(&self) -> Seq<RecordView> {
        self.records@.map_values(|r: DboRecord| r@)
    }
}

impl DboStatement {
    /// Builds the statement: the records stably sorted by operation date.
    #[verifier::loop_isolation(false)]
    pub fn new(records: Vec<DboRecord>) -> (s: DboStatement)
        ensures
            s@ == sort_by_date(records@.map_values(|r: DboRecord| r@)),
            sorted_by_date(s@),
            s@.len() == records@.len(),
    {
        let mut v = records;
        let ghost orig: Seq<RecordView> = v@.map_values(|r: DboRecord| r@);
        proof {
            lemma_sort_by_date_sorted(orig);
        }
        let mut i: usize = 1;
        proof {
            if orig.len() >= 1 {
                lemma_sort_singleton(orig.take(1));
                assert(v@.map_values(|r: DboRecord| r@).take(1) =~= orig.take(1));
                assert(v@.map_values(|r: DboRecord| r@).skip(1) =~= orig.skip(1));
            }
        }
        while i < v.len()
            invariant
                1 <= i,
                i <= v@.len() || v@.len() == 0,
                v@.len() == orig.len(),
                v@.len() >= 1 ==> v@.map_values(|r: DboRecord| r@).take(i as int) == sort_by_date(
                    orig.take(i as int),
                ),
                v@.len() >= 1 ==> v@.map_values(|r: DboRecord| r@).skip(i as int) == orig.skip(
                    i as int,
                ),
            decreases v@.len() - i,
        {
            let ghost views = v@.map_values(|r: DboRecord| r@);
            let ghost sorted_prefix = sort_by_date(orig.take(i as int));
            let ghost xv = orig[i as int];
            proof {
                lemma_sort_by_date_sorted(orig.take(i as int));
                assert(views[i as int] == views.skip(i as int)[0]);
                assert(views[i as int] == xv);
            }
            let date = v[i].operation_date;
            assert(date == xv.operation_date);
            let mut p: usize = 0;
            while p < i && date_le_exec(&v[p].operation_date, &date)
                invariant
                    0 <= p <= i,
                    forall|j: int|
                        0 <= j < p ==> date_le(
                            sorted_prefix[j].operation_date,
                            xv.operation_date,
                        ),
                decreases i - p,
            {
                proof {
                    assert(views[p as int] == views.take(i as int)[p as int]);
                }
                p = p + 1;
            }
            proof {
                lemma_insert_pos_bounds(sorted_prefix, xv);
                if p < i {
                    assert(views[p as int] == views.take(i as int)[p as int]);
                    assert(!date_le(sorted_prefix[p as int].operation_date, xv.operation_date));
                }
                // p is the first position with a strictly later date,
                // which is exactly the insertion position
                let ip = insert_pos(sorted_prefix, xv);
                if ip < p {
                    assert(date_le(sorted_prefix[ip].operation_date, xv.operation_date));
                }
                if p < ip {
                    assert(!date_le(sorted_prefix[p as int].operation_date, xv.operation_date));
                    assert(date_le(sorted_prefix[p as int].operation_date, xv.operation_date));
                }
                assert(p as int == ip);
            }
            let x = v.remove(i);
            v.insert(p, x);
            proof {
                let after = v@.map_values(|r: DboRecord| r@);
                assert(after =~= views.remove(i as int).insert(p as int, xv));
                assert(after.take(i as int + 1) =~= insert_sorted(sorted_prefix, xv));
                assert(orig.take(i as int + 1).drop_last() =~= orig.take(i as int));
                assert(orig.take(i as int + 1).last() == xv);
                assert(after.take(i as int + 1) == sort_by_date(orig.take(i as int + 1)));
                assert forall|k: int| i as int + 1 <= k < orig.len() implies views[k] == orig[k]
                    by {
                    assert(views[k] == views.skip(i as int)[k - i as int]);
                }
                assert(after.skip(i as int + 1) =~= orig.skip(i as int + 1));
            }
            i = i + 1;
        }
        proof {
            if orig.len() >= 1 {
                assert(v@.map_values(|r: DboRecord| r@) =~= v@.map_values(
                    |r: DboRecord| r@,
                ).take(i as int));
                assert(orig.take(i as int) =~= orig);
            } else {
                assert(v@.map_values(|r: DboRecord| r@) =~= orig);
                assert(sort_by_date(orig) == orig);
            }
        }
        DboStatement { records: v }
    }

    /// Read-only access to the records, in ascending operation-date order.
    pub fn iter(&self) -> (r: &Vec<DboRecord>)
        ensures
            r@.map_values(|x: DboRecord| x@) == self@,
    {
        &self.records
    }

    /// How many records the statement holds.
    pub fn len(&self) -> (n: usize)
        ensures
            n == self@.len(),
    {
        self.records.len()
    }

    /// Whether the statement holds no record.
    pub fn is_empty(&self) -> (e: bool)
        ensures
            e == (self@.len() == 0),
    {
        self.records.is_empty()
    }
}

impl DboRecord {
    /// A record carrying only the two fields the narrow equality looks
    /// at; every other field is empty or absent, and the document date
    /// is the fixed first day of year one.
    pub fn from_date_and_amount(operation_date: OperationDate, amount: Amount) -> (r: DboRecord)
        ensures
            r@.operation_date == operation_date,
            r@.coverage == amount,
            r@.debit is None,
            r@.credit is None,
            r@.party_tax_id.len() == 0,
            r@.party_bank_id.len() == 0,
            r@.party_account.len() == 0,
            r@.currency.len() == 0,
            r@.operation_code.len() == 0,
            r@.counterparty_bank_id.len() == 0,
            r@.payment_provider.len() == 0,
            r@.counterparty_account.len() == 0,
            r@.counterparty_tax_id.len() == 0,
            r@.counterparty_name.len() == 0,
            r@.document_number.len() == 0,
            r@.document_date == (DocumentDate { year: 1, month: 1, day: 1 }),
            r@.payment_purpose.len() == 0,
    {
        DboRecord {
            party_tax_id: String::new(),
            party_bank_id: String::new(),
            party_account: String::new(),
            currency: String::new(),
            operation_date,
            operation_code: String::new(),
            counterparty_bank_id: String::new(),
            payment_provider: String::new(),
            counterparty_account: String::new(),
            counterparty_tax_id: String::new(),
            counterparty_name: String::new(),
            document_number: String::new(),
            document_date: DocumentDate { year: 1, month: 1, day: 1 },
            debit: None,
            credit: None,
            payment_purpose: String::new(),
            coverage: amount,
        }
    }
}

} // verus!
