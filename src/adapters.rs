use vstd::prelude::*;

verus! {

/// The sum of a sequence of integers.
pub open spec fn sum_of(s: Seq<i64>) -> int
    decreases s.len(),
{
    if s.len() == 0 {
        0
    } else {
        sum_of(s.drop_last()) + s.last()
    }
}

/// Every running total of `s`, from the first item on, fits in an `i64`.
pub open spec fn sums_fit(s: Seq<i64>) -> bool {
    forall|k: int| 0 <= k <= s.len() ==> i64::MIN <= #[trigger] sum_of(s.take(k)) <= i64::MAX
}

/// `predicate` answers `true` on `x`.
pub open spec fn accepts<T, P: Fn(&T) -> bool>(predicate: P, x: T) -> bool {
    predicate.ensures((&x,), true)
}

/// The items of `s` that `predicate` accepts, in order.
pub open spec fn kept<T, P: Fn(&T) -> bool>(s: Seq<T>, predicate: P) -> Seq<T>
    decreases s.len(),
{
    if s.len() == 0 {
        Seq::empty()
    } else if accepts(predicate, s[0]) {
        seq![s[0]].add(kept(s.drop_first(), predicate))
    } else {
        kept(s.drop_first(), predicate)
    }
}

/// `predicate` can be called on every item and gives one answer per item.
pub open spec fn is_total_predicate<T, P: Fn(&T) -> bool>(predicate: P) -> bool {
    &&& forall|x: T| #[trigger] predicate.requires((&x,))
    &&& forall|x: T, b: bool| #[trigger] predicate.ensures((&x,), b) ==> b == accepts(predicate, x)
}

/// What `mapper` gives for `x`.
pub open spec fn image<T, R, M: Fn(T) -> R>(mapper: M, x: T) -> R {
    choose|r: R| mapper.ensures((x,), r)
}

/// `mapper` can be called on every item and gives one result per item.
pub open spec fn is_total_mapper<T, R, M: Fn(T) -> R>(mapper: M) -> bool {
    &&& forall|x: T| #[trigger] mapper.requires((x,))
    &&& forall|x: T, r: R| #[trigger] mapper.ensures((x,), r) ==> r == image(mapper, x)
}

/// A source of items, taken one at a time from the front.
pub trait MyIterator: Sized {
    type Item;

    /// What the iterator needs in order to produce its items.
    spec fn inv(&self) -> bool;

    /// The items still to come, in order.
    spec fn rest(&self) -> Seq<Self::Item>;

    /// Takes the next item, or `None` once there is none left.
    fn next(&mut self) -> (r: Option<Self::Item>)
        requires
            old(self).inv(),
        ensures
            final(self).inv(),
            old(self).rest().len() == 0 ==> r is None && final(self).rest() == old(self).rest(),
            old(self).rest().len() > 0 ==> r == Some(old(self).rest()[0]) && final(self).rest()
                == old(self).rest().drop_first(),
    ;

    /// Wraps this iterator so that only the items `predicate` accepts come out.
    fn my_filter<P: Fn(&Self::Item) -> bool>(self, predicate: P) -> (r: MyFilter<Self, P>)
        ensures
            r.iterator == self,
            r.predicate == predicate,
    {
        MyFilter { iterator: self, predicate }
    }

    /// Wraps this iterator so that each item comes out passed through `mapper`.
    fn my_map<R, M: Fn(Self::Item) -> R>(self, mapper: M) -> (r: MyMap<Self, M>)
        ensures
            r.iterator == self,
            r.mapper == mapper,
    {
        MyMap { iterator: self, mapper }
    }
}

/// Adds up what an iterator of integers produces.
pub trait MySum: MyIterator<Item = i64> {
    /// The sum of all remaining items.
    fn my_sum(self) -> (r: i64)
        requires
            self.inv(),
            sums_fit(self.rest()),
        ensures
            r == sum_of(self.rest()),
    ;
}

impl<I: MyIterator<Item = i64>> MySum for I {
    fn my_sum(self) -> (r: i64) {
        let ghost all = self.rest();
        let mut it = self;
        let mut total: i64 = 0;
        let ghost mut taken: int = 0;
        assert(all.take(0) =~= Seq::<i64>::empty());
        loop
            invariant
                it.inv(),
                0 <= taken <= all.len(),
                it.rest() == all.skip(taken),
                total == sum_of(all.take(taken)),
                sums_fit(all),
                all == self.rest(),
            decreases it.rest().len(),
        {
            match it.next() {
                Some(v) => {
                    assert(all.take(taken + 1).drop_last() =~= all.take(taken));
                    assert(all.skip(taken)[0] == all[taken]);
                    assert(sum_of(all.take(taken + 1)) == total + v);
                    total = total + v;
                    proof {
                        assert(all.skip(taken).drop_first() =~= all.skip(taken + 1));
                        taken = taken + 1;
                    }
                },
                None => {
                    assert(all.skip(taken).len() == 0);
                    assert(taken == all.len());
                    assert(all.take(taken) =~= all);
                    return total;
                },
            }
        }
    }
}

impl<T> MyIterator for Vec<T> {
    type Item = T;

    open spec fn inv(&self) -> bool {
        true
    }

    open spec fn rest(&self) -> Seq<T> {
        self@
    }

    fn next(&mut self) -> (r: Option<T>) {
        if self.len() == 0 {
            None
        } else {
            let v = self.remove(0);
            assert(self@ =~= old(self)@.drop_first());
            Some(v)
        }
    }
}

/// The items of `iterator` that `predicate` accepts.
pub struct MyFilter<I, P> {
    pub iterator: I,
    pub predicate: P,
}

impl<I: MyIterator, P: Fn(&I::Item) -> bool> MyIterator for MyFilter<I, P> {
    type Item = I::Item;

    open spec fn inv(&self) -> bool {
        self.iterator.inv() && is_total_predicate(self.predicate)
    }

    open spec fn rest(&self) -> Seq<I::Item> {
        kept(self.iterator.rest(), self.predicate)
    }

    fn next(&mut self) -> (r: Option<I::Item>) {
        loop
            invariant
                self.inv(),
                self.predicate == old(self).predicate,
                self.rest() == old(self).rest(),
            decreases self.iterator.rest().len(),
        {
            match self.iterator.next() {
                Some(v) => {
                    if (self.predicate)(&v) {
                        assert(self.rest() =~= old(self).rest().drop_first());
                        return Some(v);
                    }
                },
                None => {
                    return None;
                },
            }
        }
    }
}

/// The items of `iterator`, each passed through `mapper`.
pub struct MyMap<I, M> {
    pub iterator: I,
    pub mapper: M,
}

impl<I: MyIterator, R, M: Fn(I::Item) -> R> MyIterator for MyMap<I, M> {
    type Item = R;

    open spec fn inv(&self) -> bool {
        self.iterator.inv() && is_total_mapper(self.mapper)
    }

    open spec fn rest(&self) -> Seq<R> {
        self.iterator.rest().map_values(|x: I::Item| image(self.mapper, x))
    }

    fn next(&mut self) -> (r: Option<R>) {
        match self.iterator.next() {
            Some(v) => {
                let r = (self.mapper)(v);
                assert(self.rest() =~= old(self).rest().drop_first());
                Some(r)
            },
            None => None,
        }
    }
}

} // verus!
