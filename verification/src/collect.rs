//! Gathering a stream of fallible items into one fallible result: the first failure
//! wins, and nothing after it is taken.

use vstd::prelude::*;

verus! {

/// The values of the `Ok` items of `s` that come before its first `Err`.
pub open spec fn oks_before_err<T, E>(s: Seq<Result<T, E>>) -> Seq<T>
    decreases s.len(),
{
    if s.len() == 0 {
        Seq::empty()
    } else {
        let init = s.drop_last();
        if first_err(init) is Some {
            oks_before_err(init)
        } else {
            match s.last() {
                Ok(v) => oks_before_err(init).push(v),
                Err(_) => oks_before_err(init),
            }
        }
    }
}

/// The error of the first `Err` item of `s`, if there is one.
pub open spec fn first_err<T, E>(s: Seq<Result<T, E>>) -> Option<E>
    decreases s.len(),
{
    if s.len() == 0 {
        None
    } else {
        match first_err(s.drop_last()) {
            Some(e) => Some(e),
            None => match s.last() {
                Ok(_) => None,
                Err(e) => Some(e),
            },
        }
    }
}

/// What collecting the items `s` gives: the first error, or all the values.
pub open spec fn collected<T, E>(s: Seq<Result<T, E>>) -> Result<Seq<T>, E> {
    match first_err(s) {
        Some(e) => Err(e),
        None => Ok(oks_before_err(s)),
    }
}

/// The values of the `Some` items of `s` that come before its first `None`.
pub open spec fn somes_before_none<T>(s: Seq<Option<T>>) -> Seq<T>
    decreases s.len(),
{
    if s.len() == 0 {
        Seq::empty()
    } else {
        let init = s.drop_last();
        if has_none(init) {
            somes_before_none(init)
        } else {
            match s.last() {
                Some(v) => somes_before_none(init).push(v),
                None => somes_before_none(init),
            }
        }
    }
}

/// Whether some item of `s` is `None`.
pub open spec fn has_none<T>(s: Seq<Option<T>>) -> bool {
    exists|i: int| 0 <= i < s.len() && s[i] is None
}

/// The sum of `s`.
pub open spec fn seq_sum(s: Seq<i64>) -> int
    decreases s.len(),
{
    if s.len() == 0 {
        0
    } else {
        seq_sum(s.drop_last()) + s.last()
    }
}

/// Every running sum of `s` fits in an `i64`.
pub open spec fn sums_fit(s: Seq<i64>) -> bool {
    forall|k: int| 0 <= k <= s.len() ==> i64::MIN <= #[trigger] seq_sum(s.take(k)) <= i64::MAX
}

proof fn lemma_err_stays<T, E>(s: Seq<Result<T, E>>, k: int)
    requires
        0 <= k <= s.len(),
        first_err(s.take(k)) is Some,
    ensures
        first_err(s) == first_err(s.take(k)),
        oks_before_err(s) == oks_before_err(s.take(k)),
    decreases s.len() - k,
{
    if k < s.len() {
        assert(s.take(k + 1).drop_last() =~= s.take(k));
        lemma_err_stays(s, k + 1);
    } else {
        assert(s.take(k) =~= s);
    }
}

proof fn lemma_none_stays<T>(s: Seq<Option<T>>, k: int)
    requires
        0 <= k <= s.len(),
        has_none(s.take(k)),
    ensures
        somes_before_none(s) == somes_before_none(s.take(k)),
    decreases s.len() - k,
{
    if k < s.len() {
        assert(s.take(k + 1).drop_last() =~= s.take(k));
        let i = choose|i: int| 0 <= i < k && s.take(k)[i] is None;
        assert(s.take(k + 1)[i] is None);
        lemma_none_stays(s, k + 1);
    } else {
        assert(s.take(k) =~= s);
    }
}

/// Gathering fallible items one at a time, as they are pulled from a stream: once an
/// item is an error, no more may be pulled, and that error is the result.
pub struct Collector<T, E> {
    values: Vec<T>,
    err: Option<E>,
    pulled: Ghost<Seq<Result<T, E>>>,
}

impl<T, E> Collector<T, E> {
    #[verifier::type_invariant]
    spec fn inv(self) -> bool {
        &&& self.err == first_err(self.pulled@)
        &&& self.values@ == oks_before_err(self.pulled@)
    }

    /// The items pulled so far, in order.
    pub closed spec fn pulled(&self) -> Seq<Result<T, E>> {
        self.pulled@
    }

    /// Nothing pulled yet.
    pub fn new() -> (c: Collector<T, E>)
        ensures
            c.pulled() == Seq::<Result<T, E>>::empty(),
    {
        Collector { values: Vec::new(), err: None, pulled: Ghost(Seq::empty()) }
    }

    /// Whether another item may be pulled: only while no error has been pulled.
    pub fn wants_more(&self) -> (r: bool)
        ensures
            r == (first_err(self.pulled()) is None),
    {
        proof {
            use_type_invariant(self);
        }
        self.err.is_none()
    }

    /// Takes in the next item pulled from the stream.
    pub fn push(self, item: Result<T, E>) -> (c: Collector<T, E>)
        requires
            first_err(self.pulled()) is None,
        ensures
            c.pulled() == self.pulled().push(item),
    {
        proof {
            use_type_invariant(&self);
        }
        let ghost pulled = self.pulled@.push(item);
        proof {
            assert(pulled.drop_last() =~= self.pulled@);
        }
        let Collector { mut values, err, pulled: _ } = self;
        match item {
            Ok(v) => {
                values.push(v);
                Collector { values, err, pulled: Ghost(pulled) }
            },
            Err(e) => Collector { values, err: Some(e), pulled: Ghost(pulled) },
        }
    }

    /// The result: the error pulled, if one was, else all the values pulled.
    pub fn finish(self) -> (r: Result<Vec<T>, E>)
        ensures
            match r {
                Ok(v) => collected(self.pulled()) == Ok::<Seq<T>, E>(v@),
                Err(e) => collected(self.pulled()) == Err::<Seq<T>, E>(e),
            },
    {
        proof {
            use_type_invariant(&self);
        }
        let Collector { values, err, pulled: _ } = self;
        match err {
            Some(e) => Err(e),
            None => Ok(values),
        }
    }
}

/// The items of `v` in reverse order.
fn reversed<T>(v: Vec<T>) -> (r: Vec<T>)
    ensures
        r@ == v@.reverse(),
{
    let ghost s = v@;
    let mut v = v;
    let mut r: Vec<T> = Vec::new();
    while v.len() > 0
        invariant
            v@ + r@.reverse() == s,
        decreases v@.len(),
    {
        let ghost before_v = v@;
        let ghost before_r = r@;
        let x = v.pop().unwrap();
        r.push(x);
        assert(r@.reverse() =~= seq![x] + before_r.reverse());
        assert(v@ + r@.reverse() =~= before_v + before_r.reverse());
    }
    assert(r@.reverse().reverse() =~= r@);
    assert(r@ =~= s.reverse()) by {
        assert(r@.reverse() =~= s);
        assert(s.reverse() =~= r@.reverse().reverse());
    }
    r
}

/// Collects `items` into a vector of their values, stopping at the first error,
/// which is then the result.
pub fn collect_results<T, E>(items: Vec<Result<T, E>>) -> (res: Result<Vec<T>, E>)
    ensures
        match res {
            Ok(v) => collected(items@) == Ok::<Seq<T>, E>(v@),
            Err(e) => collected(items@) == Err::<Seq<T>, E>(e),
        },
{
    let ghost s = items@;
    let mut out: Vec<T> = Vec::new();
    let mut rest = reversed(items);
    assert(s.take(0) =~= Seq::<Result<T, E>>::empty());
    while rest.len() > 0
        invariant
            s == items@,
            out@.len() + rest@.len() == s.len(),
            rest@ == s.skip(out@.len() as int).reverse(),
            first_err(s.take(out@.len() as int)) is None,
            oks_before_err(s.take(out@.len() as int)) == out@,
        decreases rest@.len(),
    {
        let ghost k = out@.len() as int;
        let item = rest.pop().unwrap();
        assert(item == s[k]);
        assert(s.take(k + 1).drop_last() =~= s.take(k));
        match item {
            Ok(v) => {
                out.push(v);
                assert(rest@ =~= s.skip(k + 1).reverse());
            },
            Err(e) => {
                proof {
                    assert(s.take(k + 1).last() == s[k]);
                    assert(first_err(s.take(k + 1)) == Some(e));
                    lemma_err_stays(s, k + 1);
                }
                return Err(e);
            },
        }
    }
    assert(s.take(out@.len() as int) =~= s);
    Ok(out)
}

/// Collects `items` into a vector of their values; `None` as soon as one item is
/// `None`.
pub fn collect_options<T>(items: Vec<Option<T>>) -> (res: Option<Vec<T>>)
    ensures
        has_none(items@) ==> res.is_none(),
        !has_none(items@) ==> (res matches Some(v) && v@ == somes_before_none(items@)),
{
    let ghost s = items@;
    let mut out: Vec<T> = Vec::new();
    let mut rest = reversed(items);
    assert(s.take(0) =~= Seq::<Option<T>>::empty());
    while rest.len() > 0
        invariant
            s == items@,
            out@.len() + rest@.len() == s.len(),
            rest@ == s.skip(out@.len() as int).reverse(),
            !has_none(s.take(out@.len() as int)),
            somes_before_none(s.take(out@.len() as int)) == out@,
        decreases rest@.len(),
    {
        let ghost k = out@.len() as int;
        let item = rest.pop().unwrap();
        assert(item == s[k]);
        assert(s.take(k + 1).drop_last() =~= s.take(k));
        match item {
            Some(v) => {
                out.push(v);
                assert(rest@ =~= s.skip(k + 1).reverse());
                assert forall|i: int| 0 <= i < k + 1 implies !(#[trigger] s.take(k + 1)[i] is None) by {
                    if i < k {
                        assert(s.take(k + 1)[i] == s.take(k)[i]);
                    }
                }
            },
            None => {
                assert(s[k] is None);
                assert(has_none(s));
                return None;
            },
        }
    }
    assert(s.take(out@.len() as int) =~= s);
    Some(out)
}

/// Sums the values of `items`, stopping at the first error, which is then the
/// result.
pub fn sum_results<E>(items: Vec<Result<i64, E>>) -> (res: Result<i64, E>)
    requires
        sums_fit(oks_before_err(items@)),
    ensures
        match first_err(items@) {
            Some(e) => res == Err::<i64, E>(e),
            None => res == Ok::<i64, E>(seq_sum(oks_before_err(items@)) as i64),
        },
{
    let ghost s = items@;
    let mut total: i64 = 0;
    let mut rest = reversed(items);
    let ghost mut n: int = 0;
    let ghost mut vals: Seq<i64> = Seq::empty();
    assert(s.take(0) =~= Seq::<Result<i64, E>>::empty());
    while rest.len() > 0
        invariant
            s == items@,
            0 <= n <= s.len(),
            n + rest@.len() == s.len(),
            rest@ == s.skip(n).reverse(),
            first_err(s.take(n)) is None,
            oks_before_err(s.take(n)) == vals,
            total == seq_sum(vals),
            sums_fit(oks_before_err(s)),
        decreases rest@.len(),
    {
        let item = rest.pop().unwrap();
        assert(item == s[n]);
        assert(s.take(n + 1).drop_last() =~= s.take(n));
        match item {
            Ok(v) => {
                proof {
                    if first_err(s.take(n + 1)) is Some {
                        assert(false);
                    }
                    lemma_oks_prefix(s, n + 1);
                    let all = oks_before_err(s);
                    assert(vals.push(v) == all.take(vals.len() + 1 as int));
                    assert(vals.push(v).drop_last() =~= vals);
                    assert(seq_sum(vals.push(v)) == seq_sum(vals) + v);
                    assert(i64::MIN <= seq_sum(all.take(vals.len() + 1 as int)) <= i64::MAX);
                }
                total = total + v;
                proof {
                    vals = vals.push(v);
                    n = n + 1;
                }
                assert(rest@ =~= s.skip(n).reverse());
            },
            Err(e) => {
                proof {
                    assert(s.take(n + 1).last() == s[n]);
                    assert(first_err(s.take(n + 1)) == Some(e));
                    lemma_err_stays(s, n + 1);
                }
                return Err(e);
            },
        }
    }
    assert(s.take(n) =~= s);
    Ok(total)
}

proof fn lemma_oks_prefix<T, E>(s: Seq<Result<T, E>>, k: int)
    requires
        0 <= k <= s.len(),
    ensures
        oks_before_err(s.take(k)).len() <= oks_before_err(s).len(),
        oks_before_err(s.take(k)) == oks_before_err(s).take(oks_before_err(s.take(k)).len() as int),
    decreases s.len() - k,
{
    if k < s.len() {
        lemma_oks_prefix(s, k + 1);
        assert(s.take(k + 1).drop_last() =~= s.take(k));
        let a = oks_before_err(s.take(k));
        let b = oks_before_err(s.take(k + 1));
        assert(b == a || b == a.push(s[k]->Ok_0));
        let all = oks_before_err(s);
        assert(a =~= all.take(a.len() as int));
    } else {
        assert(s.take(k) =~= s);
        assert(oks_before_err(s).take(oks_before_err(s).len() as int) =~= oks_before_err(s));
    }
}


/// The values of items that are all `Ok`.
pub open spec fn ok_values<T, E>(s: Seq<Result<T, E>>) -> Seq<T> {
    s.map_values(|r: Result<T, E>| r->Ok_0)
}

/// The values of items that are all `Some`.
pub open spec fn some_values<T>(s: Seq<Option<T>>) -> Seq<T> {
    s.map_values(|o: Option<T>| o->Some_0)
}

proof fn lemma_all_ok<T, E>(s: Seq<Result<T, E>>)
    requires
        forall|i: int| 0 <= i < s.len() ==> #[trigger] s[i] is Ok,
    ensures
        first_err(s) is None,
        oks_before_err(s) == ok_values(s),
    decreases s.len(),
{
    if s.len() > 0 {
        let init = s.drop_last();
        assert forall|i: int| 0 <= i < init.len() implies #[trigger] init[i] is Ok by {
            assert(init[i] == s[i]);
        }
        lemma_all_ok(init);
        assert(s.last() is Ok);
        assert(ok_values(s) =~= ok_values(init).push(s.last()->Ok_0));
    }
}

/// Collecting items none of which is an error gives every value, in order.
pub proof fn collect_without_errors_keeps_every_value<T, E>(s: Seq<Result<T, E>>)
    requires
        forall|i: int| 0 <= i < s.len() ==> #[trigger] s[i] is Ok,
    ensures
        collected(s) == Ok::<Seq<T>, E>(ok_values(s)),
{
    lemma_all_ok(s);
}

/// Collecting items gives the error of the first item that is an error, whatever
/// comes after it.
pub proof fn collect_stops_at_first_error<T, E>(s: Seq<Result<T, E>>, i: int)
    requires
        0 <= i < s.len(),
        s[i] is Err,
        forall|j: int| 0 <= j < i ==> #[trigger] s[j] is Ok,
    ensures
        collected(s) == Err::<Seq<T>, E>(s[i]->Err_0),
{
    let head = s.take(i);
    assert forall|j: int| 0 <= j < head.len() implies #[trigger] head[j] is Ok by {
        assert(head[j] == s[j]);
    }
    lemma_all_ok(head);
    assert(s.take(i + 1).drop_last() =~= head);
    assert(s.take(i + 1).last() == s[i]);
    assert(first_err(s.take(i + 1)) == Some(s[i]->Err_0));
    lemma_err_stays(s, i + 1);
}

/// Collecting options none of which is `None` gives every value, in order.
pub proof fn collect_options_without_none_keeps_every_value<T>(s: Seq<Option<T>>)
    requires
        !has_none(s),
    ensures
        somes_before_none(s) == some_values(s),
    decreases s.len(),
{
    if s.len() > 0 {
        let init = s.drop_last();
        if has_none(init) {
            let j = choose|j: int| 0 <= j < init.len() && init[j] is None;
            assert(s[j] is None);
        }
        collect_options_without_none_keeps_every_value(init);
        assert(!(s[s.len() - 1] is None));
        assert(some_values(s) =~= some_values(init).push(s.last()->Some_0));
    }
}

/// Summing items none of which is an error gives the sum of all their values.
pub proof fn sum_without_errors_adds_every_value<E>(s: Seq<Result<i64, E>>)
    requires
        forall|i: int| 0 <= i < s.len() ==> #[trigger] s[i] is Ok,
    ensures
        first_err(s) is None,
        seq_sum(oks_before_err(s)) == seq_sum(ok_values(s)),
{
    lemma_all_ok(s);
}

/// The sum is arithmetic: the empty sum is zero, one value sums to itself, and the
/// sum of two runs of values one after the other is the sum of their sums, whatever
/// the signs of the values.
pub proof fn seq_sum_is_arithmetic(a: Seq<i64>, b: Seq<i64>, x: i64)
    ensures
        seq_sum(Seq::<i64>::empty()) == 0,
        seq_sum(seq![x]) == x,
        seq_sum(a + b) == seq_sum(a) + seq_sum(b),
        seq_sum(a.push(x)) == seq_sum(a) + x,
    decreases b.len(),
{
    assert(seq![x].drop_last() =~= Seq::<i64>::empty());
    assert(a.push(x) =~= a + seq![x]);
    if b.len() == 0 {
        assert(a + b =~= a);
    } else {
        seq_sum_is_arithmetic(a, b.drop_last(), x);
        assert((a + b).drop_last() =~= a + b.drop_last());
        assert((a + b).last() == b.last());
    }
    assert((a + seq![x]).drop_last() =~= a);
}

/// Summing items none of which is an error adds up all their values: the result of
/// summing `Ok(v)` followed by more items is `v` plus the result of summing the rest.
pub proof fn sum_adds_each_value<E>(s: Seq<Result<i64, E>>, v: i64)
    requires
        forall|i: int| 0 <= i < s.len() ==> #[trigger] s[i] is Ok,
    ensures
        first_err(seq![Ok::<i64, E>(v)] + s) is None,
        seq_sum(oks_before_err(seq![Ok::<i64, E>(v)] + s)) == v + seq_sum(oks_before_err(s)),
{
    let t = seq![Ok::<i64, E>(v)] + s;
    assert forall|i: int| 0 <= i < t.len() implies #[trigger] t[i] is Ok by {
        if i > 0 {
            assert(t[i] == s[i - 1]);
        }
    }
    lemma_all_ok(t);
    lemma_all_ok(s);
    assert(ok_values(t) =~= seq![v] + ok_values(s));
    seq_sum_is_arithmetic(seq![v], ok_values(s), v);
}

} // verus!
