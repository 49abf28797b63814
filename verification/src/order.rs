//! Chronological order of entries.

use crate::extractor::{models, Entry, EntryModel};
use vstd::prelude::*;

verus! {

/// The entries logged at second `k`.
pub open spec fn at_time(k: i64) -> spec_fn(EntryModel) -> bool {
    |e: EntryModel| e.date_as_timestamp == k
}

/// No entry is followed by an earlier one.
pub open spec fn is_sorted(s: Seq<EntryModel>) -> bool {
    forall|i: int, j: int| 0 <= i <= j < s.len() ==> s[i].date_as_timestamp <= s[j].date_as_timestamp
}

/// `output` is `input` in chronological order, with the entries of each
/// second in the order they have in `input`.
pub open spec fn is_stable_sort(input: Seq<EntryModel>, output: Seq<EntryModel>) -> bool {
    &&& is_sorted(output)
    &&& forall|k: i64| output.filter(at_time(k)) == input.filter(at_time(k))
}

/// Where no entry is of second `k`, none is selected.
proof fn lemma_filter_none(s: Seq<EntryModel>, k: i64)
    requires
        forall|i: int| 0 <= i < s.len() ==> s[i].date_as_timestamp != k,
    ensures
        s.filter(at_time(k)) == Seq::<EntryModel>::empty(),
    decreases s.len(),
{
    reveal(Seq::filter);
    if s.len() > 0 {
        lemma_filter_none(s.drop_last(), k);
    }
}

/// Selecting from a list with one entry put behind it.
proof fn lemma_filter_push(s: Seq<EntryModel>, x: EntryModel, k: i64)
    ensures
        s.push(x).filter(at_time(k)) == if x.date_as_timestamp == k {
            s.filter(at_time(k)).push(x)
        } else {
            s.filter(at_time(k))
        },
{
    reveal(Seq::filter);
    assert(s.push(x).drop_last() =~= s);
}

/// Selecting from a list into which an entry was put in front of later ones
/// only: the new entry comes last among those of its second.
proof fn lemma_filter_insert(s: Seq<EntryModel>, p: int, x: EntryModel, k: i64)
    requires
        0 <= p <= s.len(),
        forall|q: int| p <= q < s.len() ==> s[q].date_as_timestamp > x.date_as_timestamp,
    ensures
        s.insert(p, x).filter(at_time(k)) == if x.date_as_timestamp == k {
            s.filter(at_time(k)).push(x)
        } else {
            s.filter(at_time(k))
        },
{
    let head = s.take(p);
    let tail = s.skip(p);
    assert(s =~= head + tail);
    assert(s.insert(p, x) =~= head.push(x) + tail);
    Seq::filter_distributes_over_add(head, tail, at_time(k));
    Seq::filter_distributes_over_add(head.push(x), tail, at_time(k));
    lemma_filter_push(head, x, k);
    if x.date_as_timestamp == k {
        lemma_filter_none(tail, k);
        assert(head.filter(at_time(k)) + Seq::<EntryModel>::empty() =~= head.filter(at_time(k)));
        assert(head.filter(at_time(k)).push(x) + Seq::<EntryModel>::empty() =~= head.filter(
            at_time(k),
        ).push(x));
    }
}

/// In a stable sort, two entries of the same second keep their order: the
/// entries of that second, read off the output, are those read off the
/// input, one by one.
pub proof fn lemma_stable_keeps_order(input: Seq<EntryModel>, output: Seq<EntryModel>, k: i64, i: int)
    requires
        is_stable_sort(input, output),
        0 <= i < input.filter(at_time(k)).len(),
    ensures
        output.filter(at_time(k)).len() == input.filter(at_time(k)).len(),
        output.filter(at_time(k))[i] == input.filter(at_time(k))[i],
{
}

/// A stable sort neither loses nor invents entries.
pub proof fn lemma_stable_same_entries(input: Seq<EntryModel>, output: Seq<EntryModel>, e: EntryModel)
    requires
        is_stable_sort(input, output),
    ensures
        input.contains(e) <==> output.contains(e),
{
    broadcast use vstd::seq_lib::group_filter_ensures;

    let k = e.date_as_timestamp;
    let p = at_time(k);
    assert(output.filter(p) == input.filter(p));
    if input.contains(e) {
        let i = choose|i: int| 0 <= i < input.len() && input[i] == e;
        assert(p(input[i]));
        assert(input.filter(p).contains(input[i]));
        let j = choose|j: int| 0 <= j < output.filter(p).len() && output.filter(p)[j] == e;
        lemma_filter_member(output, k, j);
    }
    if output.contains(e) {
        let i = choose|i: int| 0 <= i < output.len() && output[i] == e;
        assert(p(output[i]));
        assert(output.filter(p).contains(output[i]));
        let j = choose|j: int| 0 <= j < input.filter(p).len() && input.filter(p)[j] == e;
        lemma_filter_member(input, k, j);
    }
}

/// What is selected from a list is in the list.
proof fn lemma_filter_member(s: Seq<EntryModel>, k: i64, j: int)
    requires
        0 <= j < s.filter(at_time(k)).len(),
    ensures
        s.contains(s.filter(at_time(k))[j]),
    decreases s.len(),
{
    reveal(Seq::filter);
    if s.len() > 0 {
        let sub = s.drop_last().filter(at_time(k));
        if j < sub.len() {
            lemma_filter_member(s.drop_last(), k, j);
            let x = sub[j];
            let i = choose|i: int| 0 <= i < s.drop_last().len() && s.drop_last()[i] == x;
            assert(s[i] == x);
        } else {
            assert(s.filter(at_time(k))[j] == s.last());
            assert(s[s.len() - 1] == s.last());
        }
    }
}

/// Two lists in chronological order that agree on the entries of every
/// second, in order, are the same list.
proof fn lemma_sorted_lists_agree(a: Seq<EntryModel>, b: Seq<EntryModel>)
    requires
        is_sorted(a),
        is_sorted(b),
        forall|k: i64| a.filter(at_time(k)) == b.filter(at_time(k)),
    ensures
        a == b,
    decreases a.len(),
{
    broadcast use vstd::seq_lib::group_filter_ensures;

    if a.len() == 0 || b.len() == 0 {
        if b.len() > 0 {
            let k = b[0].date_as_timestamp;
            assert(at_time(k)(b[0]));
            assert(b.filter(at_time(k)).contains(b[0]));
            assert(a.filter(at_time(k)).len() <= a.len());
        }
        if a.len() > 0 {
            let k = a[0].date_as_timestamp;
            assert(at_time(k)(a[0]));
            assert(a.filter(at_time(k)).contains(a[0]));
            assert(b.filter(at_time(k)).len() <= b.len());
        }
        assert(a =~= b);
    } else {
        let x = a.last();
        let y = b.last();
        let kx = x.date_as_timestamp;
        let ky = y.date_as_timestamp;
        assert(a =~= a.drop_last().push(x));
        assert(b =~= b.drop_last().push(y));
        lemma_filter_push(a.drop_last(), x, kx);
        lemma_filter_push(b.drop_last(), y, ky);
        let fa = a.filter(at_time(kx));
        assert(fa.last() == x);
        assert(b.filter(at_time(kx)) == fa);
        lemma_filter_member(b, kx, fa.len() - 1);
        let i = choose|i: int| 0 <= i < b.len() && b[i] == x;
        assert(b[i].date_as_timestamp <= b[b.len() - 1].date_as_timestamp);
        let fb = b.filter(at_time(ky));
        assert(fb.last() == y);
        assert(a.filter(at_time(ky)) == fb);
        lemma_filter_member(a, ky, fb.len() - 1);
        let j = choose|j: int| 0 <= j < a.len() && a[j] == y;
        assert(a[j].date_as_timestamp <= a[a.len() - 1].date_as_timestamp);
        assert(kx == ky);
        assert(x == y);
        assert forall|k: i64|
            a.drop_last().filter(at_time(k)) == b.drop_last().filter(at_time(k)) by {
            lemma_filter_push(a.drop_last(), x, k);
            lemma_filter_push(b.drop_last(), y, k);
            assert(a.filter(at_time(k)) == b.filter(at_time(k)));
            if k == kx {
                assert(a.drop_last().filter(at_time(k)) =~= a.filter(at_time(k)).drop_last());
                assert(b.drop_last().filter(at_time(k)) =~= b.filter(at_time(k)).drop_last());
            }
        }
        lemma_sorted_lists_agree(a.drop_last(), b.drop_last());
    }
}

/// A list has one stable sort only.
pub proof fn lemma_stable_sort_is_unique(
    input: Seq<EntryModel>,
    first: Seq<EntryModel>,
    second: Seq<EntryModel>,
)
    requires
        is_stable_sort(input, first),
        is_stable_sort(input, second),
    ensures
        first == second,
{
    lemma_sorted_lists_agree(first, second);
}

/// Turns a list of entries round.
fn reversed(buffer: Vec<Entry>) -> (r: Vec<Entry>)
    ensures
        r@.len() == buffer@.len(),
        forall|j: int| 0 <= j < r@.len() ==> (#[trigger] r@[j])@ == buffer@[buffer@.len() - 1 - j]@,
{
    let ghost input = buffer@;
    let mut rest = buffer;
    let mut r: Vec<Entry> = Vec::new();
    while rest.len() > 0
        invariant
            rest@.len() + r@.len() == input.len(),
            forall|j: int| 0 <= j < rest@.len() ==> (#[trigger] rest@[j])@ == input[j]@,
            forall|j: int| 0 <= j < r@.len() ==> (#[trigger] r@[j])@ == input[input.len() - 1 - j]@,
        decreases rest.len(),
    {
        let e = rest.pop().unwrap();
        r.push(e);
    }
    r
}

/// Puts entries in chronological order, keeping entries of the same second
/// in the order they came in. Each entry is put behind the entries sorted so
/// far that are not later than it, so a list that is in order already costs
/// one comparison for each entry.
pub fn sort_by_timestamp(buffer: Vec<Entry>) -> (sorted: Vec<Entry>)
    ensures
        is_stable_sort(models(buffer@), models(sorted@)),
{
    let ghost input = models(buffer@);
    let ghost n = input.len() as int;
    let mut pending = reversed(buffer);
    let mut out: Vec<Entry> = Vec::new();
    assert(input.take(0) =~= Seq::<EntryModel>::empty());
    while pending.len() > 0
        invariant
            n == input.len(),
            pending@.len() <= n,
            forall|j: int| 0 <= j < pending@.len() ==> (#[trigger] pending@[j])@ == input[n - 1 - j],
            is_sorted(models(out@)),
            forall|k: i64| models(out@).filter(at_time(k)) == input.take(n - pending@.len()).filter(at_time(k)),
        decreases pending.len(),
    {
        let ghost i = n - pending@.len();
        let ghost before = models(out@);
        let e = pending.pop().unwrap();
        assert(e@ == input[i]);
        assert(input.take(i + 1) =~= input.take(i).push(e@));
        let mut p: usize = out.len();
        while p > 0 && out[p - 1].date_as_timestamp > e.date_as_timestamp
            invariant
                p <= out.len(),
                forall|q: int| p <= q < out@.len() ==> models(out@)[q].date_as_timestamp > e.date_as_timestamp,
            decreases p,
        {
            p -= 1;
        }
        assert(p > 0 ==> models(out@)[p - 1].date_as_timestamp <= e.date_as_timestamp);
        out.insert(p, e);
        assert(models(out@) =~= before.insert(p as int, e@));
        assert forall|k: i64| models(out@).filter(at_time(k)) == input.take(i + 1).filter(at_time(k)) by {
            lemma_filter_insert(before, p as int, e@, k);
            lemma_filter_push(input.take(i), e@, k);
        }
    }
    assert(input.take(n) =~= input);
    out
}

} // verus!
