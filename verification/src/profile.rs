//! Wall-clock time by phase. The caller measures; the buckets add up.

use vstd::prelude::*;

use crate::text::same_text;

verus! {

/// Times of one phase.
pub struct Bucket {
    /// Phase.
    pub name: String,
    /// How often it ran.
    pub count: u64,
    /// Nanoseconds in all.
    pub ns: u64,
}

/// The values of a bucket.
pub struct BucketView {
    /// Phase.
    pub name: Seq<char>,
    /// How often it ran.
    pub count: u64,
    /// Nanoseconds in all.
    pub ns: u64,
}

impl View for Bucket {
    type V = BucketView;

    open spec fn view(&self) -> BucketView {
        BucketView { name: self.name@, count: self.count, ns: self.ns }
    }
}

/// A sum that starts over beyond the largest number.
pub open spec fn rolled(a: u64, b: u64) -> u64 {
    if a + b > u64::MAX {
        (a + b - u64::MAX - 1) as u64
    } else {
        (a + b) as u64
    }
}

fn roll(a: u64, b: u64) -> (r: u64)
    ensures
        r == rolled(a, b),
{
    if b > u64::MAX - a {
        b - (u64::MAX - a) - 1
    } else {
        a + b
    }
}

/// The values of some buckets.
pub open spec fn views(b: Seq<Bucket>) -> Seq<BucketView> {
    Seq::new(b.len(), |i: int| b[i]@)
}

/// Where a phase stands among the first `n` buckets; `n` where it does not.
pub open spec fn place_of(b: Seq<BucketView>, name: Seq<char>, n: nat) -> nat
    decreases n,
{
    if n == 0 {
        0
    } else {
        let before = place_of(b, name, (n - 1) as nat);
        if before < n - 1 || b[n - 1].name == name {
            before
        } else {
            n
        }
    }
}

/// The buckets after a phase ran once more.
pub open spec fn recorded(b: Seq<BucketView>, name: Seq<char>, ns: u64) -> Seq<BucketView> {
    let k = place_of(b, name, b.len());
    if k < b.len() {
        b.update(
            k as int,
            BucketView { name, count: rolled(b[k as int].count, 1), ns: rolled(b[k as int].ns, ns) },
        )
    } else {
        b.push(BucketView { name, count: 1, ns })
    }
}

/// A row put behind the rows with at least as much time.
pub open spec fn inserted(rows: Seq<BucketView>, b: BucketView) -> Seq<BucketView>
    decreases rows.len(),
{
    if rows.len() == 0 || rows.last().ns >= b.ns {
        rows.push(b)
    } else {
        inserted(rows.drop_last(), b).push(rows.last())
    }
}

/// The buckets by time, most first; those with equal times in the order they came
/// up.
pub open spec fn by_time(b: Seq<BucketView>) -> Seq<BucketView>
    decreases b.len(),
{
    if b.len() == 0 {
        b
    } else {
        inserted(by_time(b.drop_last()), b.last())
    }
}

/// The rows fall in time.
pub open spec fn falling(rows: Seq<BucketView>) -> bool {
    forall|i: int, j: int| 0 <= i < j < rows.len() ==> (#[trigger] rows[i]).ns >= (#[trigger] rows[j]).ns
}

proof fn lemma_inserted(rows: Seq<BucketView>, b: BucketView)
    requires
        falling(rows),
    ensures
        falling(inserted(rows, b)),
        inserted(rows, b).len() == rows.len() + 1,
        inserted(rows, b).to_multiset() == rows.to_multiset().insert(b),
        forall|i: int|
            0 <= i < inserted(rows, b).len() ==> (#[trigger] inserted(rows, b)[i]).ns <= (if rows.len() == 0
                || b.ns > rows[0].ns {
                b.ns
            } else {
                rows[0].ns
            }),
    decreases rows.len(),
{
    broadcast use vstd::seq_lib::group_to_multiset_ensures;

    if rows.len() == 0 || rows.last().ns >= b.ns {
    } else {
        let front = rows.drop_last();
        lemma_inserted(front, b);
        assert(rows =~= front.push(rows.last()));
        let out = inserted(front, b);
        assert forall|i: int| 0 <= i < out.len() implies (#[trigger] out[i]).ns >= rows.last().ns by {
            lemma_inserted_members(front, b, i);
        }
        assert(inserted(rows, b).to_multiset() =~= rows.to_multiset().insert(b));
    }
}

proof fn lemma_inserted_members(rows: Seq<BucketView>, b: BucketView, i: int)
    requires
        0 <= i < inserted(rows, b).len(),
    ensures
        inserted(rows, b)[i] == b || exists|j: int| 0 <= j < rows.len() && inserted(rows, b)[i] == #[trigger] rows[j],
    decreases rows.len(),
{
    if rows.len() == 0 || rows.last().ns >= b.ns {
        if i < rows.len() {
            assert(inserted(rows, b)[i] == rows[i]);
        }
    } else {
        let front = rows.drop_last();
        let out = inserted(front, b);
        if i < out.len() {
            lemma_inserted_members(front, b, i);
            if out[i] != b {
                let j = choose|j: int| 0 <= j < front.len() && out[i] == #[trigger] front[j];
                assert(rows[j] == front[j]);
            }
        } else {
            assert(inserted(rows, b)[i] == rows[rows.len() - 1]);
        }
    }
}

/// The report lists every bucket once and falls in time.
pub proof fn law_report_is_sorted(b: Seq<BucketView>)
    ensures
        falling(by_time(b)),
        by_time(b).len() == b.len(),
        by_time(b).to_multiset() == b.to_multiset(),
    decreases b.len(),
{
    broadcast use vstd::seq_lib::group_to_multiset_ensures;

    if b.len() > 0 {
        law_report_is_sorted(b.drop_last());
        lemma_inserted(by_time(b.drop_last()), b.last());
        assert(b =~= b.drop_last().push(b.last()));
    }
}

/// Rows of one time are listed in the order they came up.
pub proof fn law_report_is_stable(b: Seq<BucketView>, t: u64)
    ensures
        by_time(b).filter(|x: BucketView| x.ns == t) == b.filter(|x: BucketView| x.ns == t),
    decreases b.len(),
{
    let f = |x: BucketView| x.ns == t;
    if b.len() > 0 {
        let front = b.drop_last();
        law_report_is_stable(front, t);
        law_report_is_sorted(front);
        lemma_inserted_filter(by_time(front), b.last(), t);
        assert(b =~= front.push(b.last()));
        lemma_filter_push(front, b.last(), f);
        lemma_filter_push(by_time(front), b.last(), f);
    } else {
        assert(by_time(b) =~= b);
    }
}

proof fn lemma_filter_push(s: Seq<BucketView>, x: BucketView, f: spec_fn(BucketView) -> bool)
    ensures
        s.push(x).filter(f) == (if f(x) {
            s.filter(f).push(x)
        } else {
            s.filter(f)
        }),
{
    reveal(Seq::filter);
    assert(s.push(x).drop_last() =~= s);
    assert(s.push(x).last() == x);
}

proof fn lemma_inserted_filter(rows: Seq<BucketView>, b: BucketView, t: u64)
    requires
        falling(rows),
    ensures
        inserted(rows, b).filter(|x: BucketView| x.ns == t) == rows.push(b).filter(
            |x: BucketView| x.ns == t,
        ),
    decreases rows.len(),
{
    let f = |x: BucketView| x.ns == t;
    if rows.len() == 0 || rows.last().ns >= b.ns {
    } else {
        let front = rows.drop_last();
        let last = rows.last();
        lemma_inserted_filter(front, b, t);
        lemma_filter_push(inserted(front, b), last, f);
        lemma_filter_push(front, b, f);
        lemma_filter_push(front, last, f);
        lemma_filter_push(rows, b, f);
        assert(rows =~= front.push(last));
    }
}

/// No phase occurs twice.
pub open spec fn distinct(b: Seq<BucketView>) -> bool {
    forall|i: int, j: int|
        0 <= i < j < b.len() ==> (#[trigger] b[i]).name != (#[trigger] b[j]).name
}

proof fn lemma_place_found(b: Seq<BucketView>, name: Seq<char>, n: nat)
    requires
        n <= b.len(),
    ensures
        place_of(b, name, n) <= n,
        place_of(b, name, n) < n ==> b[place_of(b, name, n) as int].name == name,
        forall|i: int| 0 <= i < place_of(b, name, n) ==> (#[trigger] b[i]).name != name,
    decreases n,
{
    if n > 0 {
        lemma_place_found(b, name, (n - 1) as nat);
    }
}

/// Recording a phase keeps each phase in one place.
pub proof fn law_phases_stay_distinct(b: Seq<BucketView>, name: Seq<char>, ns: u64)
    requires
        distinct(b),
    ensures
        distinct(recorded(b, name, ns)),
{
    lemma_place_found(b, name, b.len());
}

/// The phases measured so far, each once.
pub struct Buckets {
    entries: Vec<Bucket>,
}

impl View for Buckets {
    type V = Seq<BucketView>;

    /// In the order they came up.
    closed spec fn view(&self) -> Seq<BucketView> {
        views(self.entries@)
    }
}

/// A phase that is being measured.
pub struct ScopedTimer {
    /// Phase.
    pub name: String,
}

/// Begins to measure a phase.
pub fn scoped(name: &str) -> (t: ScopedTimer)
    ensures
        t.name@ == name@,
{
    ScopedTimer { name: name.to_owned() }
}

impl ScopedTimer {
    /// Ends the phase after `ns` nanoseconds.
    pub fn stop(self, ns: u64, buckets: &mut Buckets)
        ensures
            final(buckets)@ == recorded(old(buckets)@, self.name@, ns),
            distinct(old(buckets)@) ==> distinct(final(buckets)@),
    {
        buckets.record(self.name, ns);
    }
}

impl Buckets {
    /// No phase.
    pub fn new() -> (b: Buckets)
        ensures
            b@ == Seq::<BucketView>::empty(),
            distinct(b@),
    {
        proof {
            assert(views(Seq::<Bucket>::empty()) =~= Seq::<BucketView>::empty());
        }
        Buckets { entries: Vec::new() }
    }

    /// Adds one run of a phase.
    pub fn record(&mut self, name: String, ns: u64)
        ensures
            final(self)@ == recorded(old(self)@, name@, ns),
            distinct(old(self)@) ==> distinct(final(self)@),
    {
        let ghost before = views(self.entries@);
        let n: usize = self.entries.len();
        let mut k: usize = 0;
        while k < n && !same_text(self.entries[k].name.as_str(), name.as_str())
            invariant
                n == self.entries@.len(),
                0 <= k <= n,
                before == views(self.entries@),
                place_of(before, name@, k as nat) == k,
                *self == *old(self),
            decreases n - k,
        {
            k = k + 1;
        }
        proof {
            lemma_place(before, name@, k as nat, n as nat);
            if distinct(before) {
                law_phases_stay_distinct(before, name@, ns);
            }
        }
        if k < n {
            let count: u64 = roll(self.entries[k].count, 1);
            let total: u64 = roll(self.entries[k].ns, ns);
            let b: Bucket = Bucket { name, count, ns: total };
            self.entries.set(k, b);
            assert(views(self.entries@) =~= recorded(before, name@, ns));
        } else {
            self.entries.push(Bucket { name, count: 1, ns });
            assert(views(self.entries@) =~= recorded(before, name@, ns));
        }
    }
}

proof fn lemma_place(b: Seq<BucketView>, name: Seq<char>, k: nat, n: nat)
    requires
        k <= n <= b.len(),
        place_of(b, name, k) == k,
        k < n ==> b[k as int].name == name,
    ensures
        place_of(b, name, n) == k,
    decreases n,
{
    if k < n {
        if n - 1 > k {
            lemma_place(b, name, k, (n - 1) as nat);
        }
    }
}

fn copied(b: &Bucket) -> (c: Bucket)
    ensures
        c@ == b@,
{
    Bucket { name: b.name.clone(), count: b.count, ns: b.ns }
}

/// The rows of the report: the phases by time, most first.
pub fn dump(buckets: &Buckets) -> (rows: Vec<Bucket>)
    ensures
        views(rows@) == by_time(buckets@),
{
    let mut rows: Vec<Bucket> = Vec::new();
    for i in 0..buckets.entries.len()
        invariant
            views(rows@) == by_time(views(buckets.entries@).take(i as int)),
            rows@.len() == i,
    {
        let b: Bucket = copied(&buckets.entries[i]);
        let ghost all = views(buckets.entries@);
        assert(all.take(i + 1).drop_last() =~= all.take(i as int));
        assert(all.take(i + 1).last() == b@);
        rows = insert_row(rows, b);
    }
    assert(views(buckets.entries@).take(buckets.entries@.len() as int) =~= views(buckets.entries@));
    rows
}

fn insert_row(rows: Vec<Bucket>, b: Bucket) -> (r: Vec<Bucket>)
    requires
        rows@.len() < usize::MAX,
    ensures
        views(r@) == inserted(views(rows@), b@),
        r@.len() == rows@.len() + 1,
{
    let ghost given = views(rows@);
    let mut left: Vec<Bucket> = rows;
    let mut right: Vec<Bucket> = Vec::new();
    while left.len() > 0 && left[left.len() - 1].ns < b.ns
        invariant
            inserted(given, b@) == inserted(views(left@), b@) + views(right@).reverse(),
            left@.len() + right@.len() == given.len(),
        decreases left@.len(),
    {
        let ghost old_left = views(left@);
        let ghost old_right = views(right@);
        let last: Option<Bucket> = left.pop();
        if let Some(x) = last {
            assert(views(left@) =~= old_left.drop_last());
            assert(x@ == old_left.last());
            right.push(x);
            assert(views(right@) =~= old_right.push(old_left.last()));
            assert(inserted(given, b@) =~= inserted(views(left@), b@) + views(right@).reverse());
        }
    }
    let ghost front = views(left@);
    left.push(b);
    assert(views(left@) =~= front.push(b@));
    let ghost mid = views(left@);
    assert(inserted(front, b@) == mid);
    let ghost rest = views(right@);
    while right.len() > 0
        invariant
            views(left@) + views(right@).reverse() == mid + rest.reverse(),
        decreases right@.len(),
    {
        let ghost l0 = views(left@);
        let ghost r0 = views(right@);
        let x: Option<Bucket> = right.pop();
        if let Some(v) = x {
            assert(views(right@) =~= r0.drop_last());
            left.push(v);
            assert(views(left@) =~= l0.push(r0.last()));
            assert(views(left@) + views(right@).reverse() =~= l0 + r0.reverse());
        }
    }
    assert(views(left@) =~= mid + rest.reverse());
    left
}

/// Forgets every phase.
pub fn reset(buckets: &mut Buckets)
    ensures
        final(buckets)@ == Seq::<BucketView>::empty(),
        distinct(final(buckets)@),
{
    buckets.entries = Vec::new();
    assert(views(buckets.entries@) =~= Seq::<BucketView>::empty());
}

} // verus!
