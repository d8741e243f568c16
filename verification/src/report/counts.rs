//! How often texts come.
use crate::journal::EventView;
use crate::ranking::first_n;
use crate::text::{
    add_text, insert_in_order, int_text, listed, own, pad_left, print_u64, put_in_order, right_in, same, views,
};
use vstd::prelude::*;
use vstd::string::StringExecFns;

verus! {

/// A text and how often it comes.
pub struct CountRow {
    pub name: Seq<char>,
    pub count: int,
}

/// The executable form of a row.
#[derive(Debug)]
pub struct NameCount {
    pub name: String,
    pub count: usize,
}

impl View for NameCount {
    type V = CountRow;

    open spec fn view(&self) -> CountRow {
        CountRow { name: self.name@, count: self.count as int }
    }
}

pub open spec fn count_views(v: Seq<NameCount>) -> Seq<CountRow> {
    Seq::new(v.len(), |i: int| v[i]@)
}

/// The tags of the first `n` lines that have one.
pub open spec fn named(opens: Seq<EventView>, n: int) -> Seq<Seq<char>>
    decreases n,
{
    if n <= 0 {
        Seq::empty()
    } else {
        match opens[n - 1].btc_regime {
            Some(r) => if r.len() > 0 {
                named(opens, n - 1).push(r)
            } else {
                named(opens, n - 1)
            },
            None => named(opens, n - 1),
        }
    }
}

/// How often a text comes among the first `n`.
pub open spec fn times_in(keys: Seq<Seq<char>>, k: Seq<char>, n: int) -> int
    decreases n,
{
    if n <= 0 {
        0
    } else {
        times_in(keys, k, n - 1) + if keys[n - 1] == k {
            1int
        } else {
            0
        }
    }
}

fn count_key(keys: &[String], k: &str) -> (r: usize)
    ensures
        r == times_in(views(keys@), k@, keys@.len() as int),
{
    let mut n: usize = 0;
    let mut i: usize = 0;
    while i < keys.len()
        invariant
            i <= keys@.len(),
            n <= i,
            n == times_in(views(keys@), k@, i as int),
        decreases keys@.len() - i,
    {
        proof {
            assert(views(keys@)[i as int] == keys@[i as int]@);
        }
        if same(keys[i].as_str(), k) {
            n = n + 1;
        }
        i = i + 1;
    }
    n
}

/// The texts among the first `n`, each once, in order.
pub open spec fn names_in(keys: Seq<Seq<char>>, n: int) -> Seq<Seq<char>>
    decreases n,
{
    if n <= 0 {
        Seq::empty()
    } else {
        let rest = names_in(keys, n - 1);
        if rest.contains(keys[n - 1]) {
            rest
        } else {
            put_in_order(rest, keys[n - 1])
        }
    }
}

pub(crate) fn list_names(keys: &[String]) -> (r: Vec<String>)
    ensures
        views(r@) == names_in(views(keys@), keys@.len() as int),
{
    let mut out: Vec<String> = Vec::new();
    let mut i: usize = 0;
    proof {
        assert(views(out@) =~= Seq::<Seq<char>>::empty());
    }
    while i < keys.len()
        invariant
            i <= keys@.len(),
            views(out@) == names_in(views(keys@), i as int),
        decreases keys@.len() - i,
    {
        proof {
            assert(views(keys@)[i as int] == keys@[i as int]@);
        }
        if !listed(out.as_slice(), keys[i].as_str()) {
            insert_in_order(&mut out, own(keys[i].as_str()));
        }
        i = i + 1;
    }
    out
}

/// Every text with how often it comes, in order of the texts.
pub open spec fn name_counts(keys: Seq<Seq<char>>) -> Seq<CountRow> {
    let names = names_in(keys, keys.len() as int);
    Seq::new(
        names.len(),
        |i: int| CountRow { name: names[i], count: times_in(keys, names[i], keys.len() as int) },
    )
}

pub(crate) fn list_counts(keys: &[String]) -> (r: Vec<NameCount>)
    ensures
        count_views(r@) == name_counts(views(keys@)),
{
    let names: Vec<String> = list_names(keys);
    let ghost all = name_counts(views(keys@));
    let mut out: Vec<NameCount> = Vec::new();
    let mut i: usize = 0;
    proof {
        assert(views(keys@).len() == keys@.len());
        assert(views(names@).len() == names@.len());
        assert(count_views(out@) =~= all.take(0));
    }
    while i < names.len()
        invariant
            i <= names@.len(),
            views(names@) == names_in(views(keys@), keys@.len() as int),
            views(names@).len() == names@.len(),
            views(keys@).len() == keys@.len(),
            all == name_counts(views(keys@)),
            count_views(out@) == all.take(i as int),
        decreases names@.len() - i,
    {
        proof {
            assert(views(names@)[i as int] == names@[i as int]@);
        }
        let row: NameCount = NameCount {
            name: own(names[i].as_str()),
            count: count_key(keys, names[i].as_str()),
        };
        let ghost before = count_views(out@);
        let ghost rv = row@;
        out.push(row);
        proof {
            assert(count_views(out@) =~= before.push(rv));
            assert(count_views(out@) =~= all.take(i as int + 1));
        }
        i = i + 1;
    }
    proof {
        assert(all.take(i as int) =~= all);
    }
    out
}

/// A row put among rows by its count, behind those that come as often.
pub open spec fn by_count_in(v: Seq<CountRow>, x: CountRow) -> Seq<CountRow>
    decreases v.len(),
{
    if v.len() == 0 || x.count <= v.last().count {
        v.push(x)
    } else {
        by_count_in(v.drop_last(), x).push(v.last())
    }
}

/// The rows by count, the most frequent first; equals keep their order.
pub open spec fn by_count(v: Seq<CountRow>) -> Seq<CountRow>
    decreases v.len(),
{
    if v.len() == 0 {
        Seq::empty()
    } else {
        by_count_in(by_count(v.drop_last()), v.last())
    }
}

proof fn lemma_by_count_in(v: Seq<CountRow>, x: CountRow, p: int)
    requires
        0 <= p <= v.len(),
        p > 0 ==> x.count <= v[p - 1].count,
        forall|j: int| p <= j < v.len() ==> x.count > (#[trigger] v[j]).count,
    ensures
        by_count_in(v, x) == v.insert(p, x),
    decreases v.len(),
{
    if p < v.len() {
        assert(x.count > v[v.len() - 1].count);
        let w = v.drop_last();
        assert forall|j: int| p <= j < w.len() implies x.count > (#[trigger] w[j]).count by {
            assert(w[j] == v[j]);
        }
        lemma_by_count_in(w, x, p);
        assert(w.insert(p, x).push(v.last()) =~= v.insert(p, x));
    } else {
        assert(v.insert(p, x) =~= v.push(x));
    }
}

fn put_count(out: &mut Vec<NameCount>, x: NameCount)
    ensures
        count_views(final(out)@) == by_count_in(count_views(old(out)@), x@),
{
    let ghost was = count_views(out@);
    let mut p: usize = out.len();
    while p > 0 && x.count > out[p - 1].count
        invariant
            p <= out@.len(),
            was == count_views(out@),
            forall|j: int| p <= j < was.len() ==> x.count > (#[trigger] was[j]).count,
        decreases p,
    {
        p = p - 1;
    }
    let ghost xv = x@;
    proof {
        if p > 0 {
            assert(was[p - 1] == out@[p - 1]@);
        }
        lemma_by_count_in(was, xv, p as int);
    }
    out.insert(p, x);
    proof {
        assert(count_views(out@) =~= was.insert(p as int, xv));
    }
}

/// The most frequent texts: by count, then in order of the texts.
pub open spec fn frequent(keys: Seq<Seq<char>>, most: int) -> Seq<CountRow> {
    first_n(by_count(name_counts(keys)), most)
}

pub(crate) fn count_rows(keys: &[String], most: usize) -> (r: Vec<NameCount>)
    ensures
        count_views(r@) == frequent(views(keys@), most as int),
{
    let rows: Vec<NameCount> = list_counts(keys);
    let ghost all = count_views(rows@);
    let mut out: Vec<NameCount> = Vec::new();
    let mut i: usize = 0;
    proof {
        assert(all.len() == rows@.len());
        assert(count_views(out@) =~= by_count(all.take(0)));
    }
    while i < rows.len()
        invariant
            i <= rows@.len(),
            all == count_views(rows@),
            all.len() == rows@.len(),
            count_views(out@) == by_count(all.take(i as int)),
        decreases rows@.len() - i,
    {
        let row: NameCount = NameCount { name: own(rows[i].name.as_str()), count: rows[i].count };
        proof {
            assert(all.take(i as int + 1).drop_last() =~= all.take(i as int));
            assert(all[i as int] == rows@[i as int]@);
        }
        put_count(&mut out, row);
        i = i + 1;
    }
    proof {
        assert(all.take(i as int) =~= all);
    }
    let ghost sorted = count_views(out@);
    if out.len() > most {
        out.truncate(most);
        proof {
            assert(count_views(out@) =~= sorted.take(most as int));
        }
    }
    out
}

/// The lines of rows.
pub open spec fn count_block(rows: Seq<CountRow>) -> Seq<Seq<char>> {
    Seq::new(rows.len(), |i: int| "  "@ + right_in(int_text(rows[i].count), 4) + "  "@ + rows[i].name)
}

pub(crate) fn write_counts(rows: &[NameCount]) -> (r: Vec<String>)
    ensures
        views(r@) == count_block(count_views(rows@)),
{
    let ghost all = count_block(count_views(rows@));
    let mut out: Vec<String> = Vec::new();
    let mut i: usize = 0;
    proof {
        assert(views(out@) =~= all.take(0));
    }
    while i < rows.len()
        invariant
            i <= rows@.len(),
            all == count_block(count_views(rows@)),
            all.len() == rows@.len(),
            views(out@) == all.take(i as int),
        decreases rows@.len() - i,
    {
        let mut t = own("  ");
        t.append(pad_left(print_u64(rows[i].count as u64).as_str(), 4).as_str());
        t.append("  ");
        t.append(rows[i].name.as_str());
        add_text(&mut out, t);
        proof {
            assert(views(out@) =~= all.take(i as int + 1));
        }
        i = i + 1;
    }
    proof {
        assert(all.take(i as int) =~= all);
    }
    out
}

proof fn lemma_by_count_in_order(v: Seq<CountRow>, x: CountRow)
    requires
        forall|i: int, j: int| 0 <= i <= j < v.len() ==> (#[trigger] v[i]).count >= (#[trigger] v[j]).count,
    ensures
        forall|i: int, j: int|
            0 <= i <= j < by_count_in(v, x).len() ==> (#[trigger] by_count_in(v, x)[i]).count >= (
            #[trigger] by_count_in(v, x)[j]).count,
        forall|i: int|
            0 <= i < by_count_in(v, x).len() ==> (#[trigger] by_count_in(v, x)[i]) == x || v.contains(
                by_count_in(v, x)[i],
            ),
        by_count_in(v, x).len() == v.len() + 1,
    decreases v.len(),
{
    let r = by_count_in(v, x);
    if v.len() == 0 || x.count <= v.last().count {
        assert forall|i: int| 0 <= i < r.len() implies (#[trigger] r[i]) == x || v.contains(r[i]) by {
            if i < v.len() {
                assert(r[i] == v[i]);
            }
        }
        assert forall|i: int, j: int| 0 <= i <= j < r.len() implies (#[trigger] r[i]).count >= (
        #[trigger] r[j]).count by {
            if j < v.len() {
                assert(r[i] == v[i] && r[j] == v[j]);
            } else if i < v.len() {
                assert(v[i].count >= v[v.len() - 1].count);
            }
        }
    } else {
        let w = v.drop_last();
        assert forall|i: int, j: int| 0 <= i <= j < w.len() implies (#[trigger] w[i]).count >= (
        #[trigger] w[j]).count by {
            assert(w[i] == v[i] && w[j] == v[j]);
        }
        lemma_by_count_in_order(w, x);
        let q = by_count_in(w, x);
        assert forall|i: int| 0 <= i < r.len() implies (#[trigger] r[i]) == x || v.contains(r[i]) by {
            if i < q.len() {
                assert(r[i] == q[i]);
                if q[i] != x {
                    let k = choose|k: int| 0 <= k < w.len() && w[k] == q[i];
                    assert(v[k] == q[i]);
                }
            } else {
                assert(v[v.len() - 1] == r[i]);
            }
        }
        assert forall|i: int, j: int| 0 <= i <= j < r.len() implies (#[trigger] r[i]).count >= (
        #[trigger] r[j]).count by {
            if j < q.len() {
                assert(r[i] == q[i] && r[j] == q[j]);
            } else if i < q.len() {
                assert(r[i] == q[i]);
                if q[i] != x {
                    let k = choose|k: int| 0 <= k < w.len() && w[k] == q[i];
                    assert(v[k] == q[i]);
                    assert(v[k].count >= v[v.len() - 1].count);
                }
            }
        }
    }
}

proof fn lemma_by_count_order(v: Seq<CountRow>)
    ensures
        forall|i: int, j: int|
            0 <= i <= j < by_count(v).len() ==> (#[trigger] by_count(v)[i]).count >= (#[trigger] by_count(
                v,
            )[j]).count,
    decreases v.len(),
{
    if v.len() > 0 {
        lemma_by_count_order(v.drop_last());
        lemma_by_count_in_order(by_count(v.drop_last()), v.last());
    }
}

/// The rows that are shown fall in count, and there are no more of them than asked
/// for.
pub proof fn law_frequent_rows_fall(keys: Seq<Seq<char>>, most: int, i: int, j: int)
    requires
        most >= 0,
        0 <= i <= j < frequent(keys, most).len(),
    ensures
        frequent(keys, most).len() <= most,
        frequent(keys, most)[i].count >= frequent(keys, most)[j].count,
{
    lemma_by_count_order(name_counts(keys));
    let all = by_count(name_counts(keys));
    assert(all[i].count >= all[j].count);
}

} // verus!
