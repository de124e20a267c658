//! Splitting byte text into the fields between separators.
use vstd::prelude::*;

verus! {

/// The fields of `b` between the separators `sep`, as `str::split` gives them.
pub open spec fn split_on(b: Seq<u8>, sep: u8) -> Seq<Seq<u8>>
    decreases b.len(),
{
    if b.len() == 0 {
        seq![Seq::empty()]
    } else if b.last() == sep {
        split_on(b.drop_last(), sep).push(Seq::empty())
    } else {
        let r = split_on(b.drop_last(), sep);
        r.update(r.len() - 1, r.last().push(b.last()))
    }
}

/// `split_on` always gives at least one field.
pub proof fn lemma_split_on_nonempty(b: Seq<u8>, sep: u8)
    ensures
        split_on(b, sep).len() >= 1,
    decreases b.len(),
{
    if b.len() > 0 {
        lemma_split_on_nonempty(b.drop_last(), sep);
    }
}

/// The fields of `b` between the separators `sep`, as ranges of `b`.
pub fn split_fields(b: &[u8], sep: u8) -> (r: Vec<(usize, usize)>)
    ensures
        r@.len() == split_on(b@, sep).len(),
        forall|k: int|
            0 <= k < r@.len() ==> #[trigger] r@[k].0 <= r@[k].1 <= b@.len() && b@.subrange(
                r@[k].0 as int,
                r@[k].1 as int,
            ) == split_on(b@, sep)[k],
{
    let mut r: Vec<(usize, usize)> = Vec::new();
    let mut start: usize = 0;
    let mut i: usize = 0;
    while i < b.len()
        invariant
            i <= b@.len(),
            start <= i,
            r@.len() + 1 == split_on(b@.take(i as int), sep).len(),
            forall|k: int|
                0 <= k < r@.len() ==> #[trigger] r@[k].0 <= r@[k].1 <= i && b@.subrange(
                    r@[k].0 as int,
                    r@[k].1 as int,
                ) == split_on(b@.take(i as int), sep)[k],
            b@.subrange(start as int, i as int) == split_on(b@.take(i as int), sep).last(),
        decreases b@.len() - i,
    {
        let ghost prev = split_on(b@.take(i as int), sep);
        let ghost old_r = r@;
        let ghost old_start = start;
        proof {
            assert(b@.take(i + 1).drop_last() =~= b@.take(i as int));
            assert(b@.take(i + 1).last() == b@[i as int]);
            lemma_split_on_nonempty(b@.take(i as int), sep);
            assert(forall|k: int| 0 <= k < old_r.len() ==> b@.subrange(old_r[k].0 as int, old_r[k].1 as int) == prev[k]);
        }
        if b[i] == sep {
            r.push((start, i));
            start = i + 1;
            proof {
                let next = split_on(b@.take(i + 1), sep);
                assert(next == prev.push(Seq::<u8>::empty()));
                assert(b@.subrange(start as int, i + 1) =~= Seq::<u8>::empty());
                assert forall|k: int| 0 <= k < r@.len() implies #[trigger] r@[k].0 <= r@[k].1 <= i + 1
                    && b@.subrange(r@[k].0 as int, r@[k].1 as int) == split_on(b@.take(i + 1), sep)[k] by {
                    if k < old_r.len() {
                        assert(r@[k] == old_r[k]);
                        assert(next[k] == prev[k]);
                    } else {
                        assert(r@[k] == (old_start, i));
                        assert(next[k] == prev[k]);
                    }
                }
            }
        } else {
            proof {
                let next = split_on(b@.take(i + 1), sep);
                assert(next == prev.update(prev.len() - 1, prev.last().push(b@[i as int])));
                assert(b@.subrange(start as int, i + 1) =~= b@.subrange(start as int, i as int).push(
                    b@[i as int],
                ));
                assert forall|k: int| 0 <= k < r@.len() implies #[trigger] r@[k].0 <= r@[k].1 <= i + 1
                    && b@.subrange(r@[k].0 as int, r@[k].1 as int) == split_on(b@.take(i + 1), sep)[k] by {
                    assert(next[k] == prev[k]);
                }
            }
        }
        i = i + 1;
        assert(forall|k: int|
                0 <= k < r@.len() ==> #[trigger] r@[k].0 <= r@[k].1 <= i);
        assert(forall|k: int|
                0 <= k < r@.len() ==> b@.subrange(
                    #[trigger] r@[k].0 as int,
                    r@[k].1 as int,
                ) == split_on(b@.take(i as int), sep)[k]);
    }
    r.push((start, i));
    proof {
        assert(b@.take(b@.len() as int) =~= b@);
    }
    r
}

} // verus!
