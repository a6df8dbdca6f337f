//! The scene aggregate: an ordered collection of objects returning the
//! globally nearest hit.

use crate::common::ray::Ray;
use crate::hittable::{
    lemma_hittable_hit_in_range, lemma_hittable_hit_tightens, spec_hittable_hit, HitRecord,
    Hittable,
};
use vstd::prelude::*;

verus! {

/// An ordered collection of scene objects, mutated only during scene
/// construction and read-only during rendering.
#[derive(Debug)]
pub struct HitList {
    pub objects: Vec<Hittable>,
}

/// The nearest hit of a prefix-closed scan: each object is probed with the
/// upper bound shrunk to the best parameter found among the objects before
/// it, and replaces that best only with a strictly smaller parameter — so
/// on an exact tie the earliest object wins.
pub open spec fn spec_list_hit(objs: Seq<Hittable>, ray: Ray, t_min: i64, t_max: i64) -> Option<
    HitRecord,
>
    decreases objs.len(),
{
    if objs.len() == 0 {
        None
    } else {
        match spec_list_hit(objs.drop_last(), ray, t_min, t_max) {
            Some(best) => match spec_hittable_hit(objs.last(), ray, t_min, best.time) {
                Some(rec) => if rec.time < best.time {
                    Some(rec)
                } else {
                    Some(best)
                },
                None => Some(best),
            },
            None => spec_hittable_hit(objs.last(), ray, t_min, t_max),
        }
    }
}

/// The nearest-hit law: when the scan reports a hit, its parameter lies in
/// the queried interval, it is the hit of one of the objects over that
/// whole interval, and no object in the list hits the ray at a smaller
/// parameter within it.  When the scan reports a miss, no object hits the
/// ray within the interval at all.
pub proof fn lemma_list_hit_nearest(objs: Seq<Hittable>, ray: Ray, t_min: i64, t_max: i64)
    ensures
        spec_list_hit(objs, ray, t_min, t_max) matches Some(rec) ==> {
            &&& t_min <= rec.time <= t_max
            &&& exists|i: int|
                0 <= i < objs.len() && #[trigger] spec_hittable_hit(objs[i], ray, t_min, t_max)
                    == Some(rec)
            &&& forall|i: int|
                0 <= i < objs.len() ==> (#[trigger] spec_hittable_hit(
                    objs[i],
                    ray,
                    t_min,
                    t_max,
                ) matches Some(other) ==> rec.time <= other.time)
        },
        spec_list_hit(objs, ray, t_min, t_max) is None ==> forall|i: int|
            0 <= i < objs.len() ==> #[trigger] spec_hittable_hit(objs[i], ray, t_min, t_max)
                is None,
    decreases objs.len(),
{
    if objs.len() > 0 {
        let front = objs.drop_last();
        let last = objs.last();
        lemma_list_hit_nearest(front, ray, t_min, t_max);
        assert(forall|i: int| 0 <= i < front.len() ==> front[i] == objs[i]);
        assert(objs[objs.len() - 1] == last);
        match spec_list_hit(front, ray, t_min, t_max) {
            Some(best) => {
                lemma_hittable_hit_in_range(last, ray, t_min, best.time);
                lemma_hittable_hit_tightens(last, ray, t_min, best.time, t_max);
                let w = choose|i: int|
                    0 <= i < front.len() && #[trigger] spec_hittable_hit(
                        front[i],
                        ray,
                        t_min,
                        t_max,
                    ) == Some(best);
                assert(spec_hittable_hit(objs[w], ray, t_min, t_max) == Some(best));
                match spec_hittable_hit(last, ray, t_min, best.time) {
                    Some(rec) => {
                        assert(spec_hittable_hit(objs[objs.len() - 1], ray, t_min, t_max)
                            == Some(rec));
                    },
                    None => {},
                }
            },
            None => {
                lemma_hittable_hit_in_range(last, ray, t_min, t_max);
            },
        }
    }
}

impl Default for HitList {
    /// The empty scene.
    fn default() -> (r: Self)
        ensures
            r.objects@ =~= Seq::<Hittable>::empty(),
    {
        Self { objects: Vec::new() }
    }
}

impl HitList {
    /// Every object's material satisfies the data-model invariants.
    pub open spec fn wf(self) -> bool {
        forall|i: int| 0 <= i < self.objects@.len() ==> (#[trigger] self.objects@[i]).wf()
    }

    pub fn new(object: Hittable) -> (r: Self)
        ensures
            r.objects@ =~= seq![object],
    {
        Self { objects: vec![object] }
    }

    pub fn clear(&mut self)
        ensures
            final(self).objects@ =~= Seq::<Hittable>::empty(),
    {
        self.objects.clear();
    }

    pub fn add(&mut self, object: Hittable)
        ensures
            final(self).objects@ =~= old(self).objects@.push(object),
    {
        self.objects.push(object);
    }

    /// The globally nearest hit over `[t_min, t_max]`: each object is
    /// probed with the best parameter so far as the shrinking upper bound,
    /// and only a strictly closer hit replaces the best, so the earliest
    /// object wins an exact tie.
    pub fn hit(&self, ray: &Ray, t_min: i64, t_max: i64) -> (r: Option<HitRecord>)
        ensures
            r == spec_list_hit(self.objects@, *ray, t_min, t_max),
    {
        let mut res: Option<HitRecord> = None;
        let mut closest: i64 = t_max;
        let n = self.objects.len();
        let mut i: usize = 0;
        while i < n
            invariant
                i <= n,
                n == self.objects@.len(),
                res == spec_list_hit(self.objects@.take(i as int), *ray, t_min, t_max),
                closest == match res {
                    Some(rec) => rec.time,
                    None => t_max,
                },
            decreases n - i,
        {
            let obj = &self.objects[i];
            if let Some(record) = obj.hit(ray, t_min, closest) {
                if res.is_none() || record.time < closest {
                    closest = record.time;
                    res = Some(record);
                }
            }
            proof {
                assert(self.objects@.take(i + 1).drop_last() =~= self.objects@.take(i as int));
                assert(self.objects@.take(i + 1).last() == self.objects@[i as int]);
            }
            i = i + 1;
        }
        proof {
            assert(self.objects@.take(n as int) =~= self.objects@);
        }
        res
    }
}

} // verus!
