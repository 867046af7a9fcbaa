//! Filters that thin out the objects of a scene before it is rendered.
use vstd::prelude::*;

verus! {

/// Drops the objects that turn only their back to the camera.
#[derive(Debug, Clone, Copy, PartialEq, Eq, Structural)]
pub struct BackFaceCulling;

/// Whether one of the rays that were shot at an object hit it from the
/// front. `hits` holds, for each ray, whether it hit the front face; `None`
/// where it missed.
pub open spec fn shows_front_spec(hits: Seq<Option<bool>>) -> bool {
    exists|i: int| 0 <= i < hits.len() && #[trigger] hits[i] == Some(true)
}

/// Those of `objects` whose flag in `keep` is set, in their order.
pub open spec fn kept<T>(objects: Seq<T>, keep: Seq<bool>) -> Seq<T>
    decreases objects.len(),
{
    if objects.len() == 0 {
        Seq::empty()
    } else if keep.last() {
        kept(objects.drop_last(), keep.drop_last()).push(objects.last())
    } else {
        kept(objects.drop_last(), keep.drop_last())
    }
}

impl BackFaceCulling {
    /// Whether one of the rays that were shot at an object hit it from the
    /// front.
    pub fn shows_front(hits: &Vec<Option<bool>>) -> (r: bool)
        ensures
            r == shows_front_spec(hits@),
    {
        let mut i: usize = 0;
        while i < hits.len()
            invariant
                i <= hits@.len(),
                forall|k: int| 0 <= k < i ==> hits@[k] != Some(true),
            decreases hits@.len() - i,
        {
            match hits[i] {
                Some(true) => {
                    return true;
                },
                _ => {},
            }
            i = i + 1;
        }
        false
    }

    /// Keeps those of `objects` whose flag in `keep` is set, in their order.
    pub fn retain<T>(objects: &mut Vec<T>, keep: &Vec<bool>)
        requires
            keep@.len() == old(objects)@.len(),
        ensures
            final(objects)@ == kept(old(objects)@, keep@),
    {
        let ghost all = objects@;
        let count = objects.len();
        let mut rest: Vec<T> = Vec::new();
        while objects.len() > 0
            invariant
                objects@.len() + rest@.len() == count,
                count == all.len(),
                forall|k: int| 0 <= k < objects@.len() ==> objects@[k] == all[k],
                forall|k: int| 0 <= k < rest@.len() ==> rest@[k] == all[count - 1 - k],
            decreases objects@.len(),
        {
            match objects.pop() {
                Some(item) => rest.push(item),
                None => {},
            }
        }
        let mut i: usize = 0;
        proof {
            assert(all.take(0) =~= Seq::empty());
        }
        while i < count
            invariant
                i <= count,
                count == all.len(),
                keep@.len() == count,
                rest@.len() == count - i,
                forall|k: int| 0 <= k < rest@.len() ==> rest@[k] == all[count - 1 - k],
                objects@ == kept(all.take(i as int), keep@.take(i as int)),
            decreases count - i,
        {
            proof {
                assert(all.take(i as int + 1).drop_last() =~= all.take(i as int));
                assert(keep@.take(i as int + 1).drop_last() =~= keep@.take(i as int));
                assert(all.take(i as int + 1).last() == all[i as int]);
                assert(keep@.take(i as int + 1).last() == keep@[i as int]);
            }
            match rest.pop() {
                Some(item) => {
                    if keep[i] {
                        objects.push(item);
                    }
                },
                None => {},
            }
            i = i + 1;
        }
        proof {
            assert(all.take(count as int) =~= all);
            assert(keep@.take(count as int) =~= keep@);
        }
    }
}

/// No more objects are kept than there were; where every flag is set all
/// are kept, and where none is set none is.
pub proof fn lemma_kept_len<T>(objects: Seq<T>, keep: Seq<bool>)
    requires
        keep.len() == objects.len(),
    ensures
        kept(objects, keep).len() <= objects.len(),
        (forall|i: int| 0 <= i < keep.len() ==> keep[i]) ==> kept(objects, keep) == objects,
        (forall|i: int| 0 <= i < keep.len() ==> !keep[i]) ==> kept(objects, keep).len() == 0,
    decreases objects.len(),
{
    if objects.len() > 0 {
        lemma_kept_len(objects.drop_last(), keep.drop_last());
        if forall|i: int| 0 <= i < keep.len() ==> keep[i] {
            assert forall|i: int| 0 <= i < keep.drop_last().len() implies keep.drop_last()[i] by {
                assert(keep[i]);
            }
            assert(objects.drop_last().push(objects.last()) =~= objects);
        }
        if forall|i: int| 0 <= i < keep.len() ==> !keep[i] {
            assert forall|i: int| 0 <= i < keep.drop_last().len() implies !keep.drop_last()[i] by {
                assert(!keep[i]);
            }
        }
    } else {
        assert(kept(objects, keep) =~= objects);
    }
}

} // verus!
