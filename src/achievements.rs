//! Achievements and the registry that looks them up.

use vstd::prelude::*;

verus! {

/// One achievement level.
pub struct Achievement {
    id: i32,
    name: String,
    description: String,
    category: String,
    level: i32,
    reward_pixels: i32,
    reward_points: i32,
    progress_needed: i32,
}

impl Achievement {
    pub closed spec fn spec_id(&self) -> i32 {
        self.id
    }

    pub closed spec fn spec_name(&self) -> Seq<char> {
        self.name@
    }

    pub closed spec fn spec_description(&self) -> Seq<char> {
        self.description@
    }

    pub closed spec fn spec_category(&self) -> Seq<char> {
        self.category@
    }

    pub closed spec fn spec_level(&self) -> i32 {
        self.level
    }

    pub closed spec fn spec_reward_pixels(&self) -> i32 {
        self.reward_pixels
    }

    pub closed spec fn spec_reward_points(&self) -> i32 {
        self.reward_points
    }

    pub closed spec fn spec_progress_needed(&self) -> i32 {
        self.progress_needed
    }

    pub fn new(
        id: i32,
        name: String,
        description: String,
        category: String,
        level: i32,
        reward_pixels: i32,
        reward_points: i32,
        progress_needed: i32,
    ) -> (r: Self)
        ensures
            r.spec_id() == id,
            r.spec_name() == name@,
            r.spec_description() == description@,
            r.spec_category() == category@,
            r.spec_level() == level,
            r.spec_reward_pixels() == reward_pixels,
            r.spec_reward_points() == reward_points,
            r.spec_progress_needed() == progress_needed,
    {
        Achievement {
            id,
            name,
            description,
            category,
            level,
            reward_pixels,
            reward_points,
            progress_needed,
        }
    }

    pub fn id(&self) -> (r: i32)
        ensures
            r == self.spec_id(),
    {
        self.id
    }

    pub fn name(&self) -> (r: &str)
        ensures
            r@ == self.spec_name(),
    {
        self.name.as_str()
    }

    pub fn description(&self) -> (r: &str)
        ensures
            r@ == self.spec_description(),
    {
        self.description.as_str()
    }

    pub fn category(&self) -> (r: &str)
        ensures
            r@ == self.spec_category(),
    {
        self.category.as_str()
    }

    pub fn level(&self) -> (r: i32)
        ensures
            r == self.spec_level(),
    {
        self.level
    }

    pub fn reward_pixels(&self) -> (r: i32)
        ensures
            r == self.spec_reward_pixels(),
    {
        self.reward_pixels
    }

    pub fn reward_points(&self) -> (r: i32)
        ensures
            r == self.spec_reward_points(),
    {
        self.reward_points
    }

    pub fn progress_needed(&self) -> (r: i32)
        ensures
            r == self.spec_progress_needed(),
    {
        self.progress_needed
    }
}

/// All achievements of the game, in the order they were added.
pub struct AchievementManager {
    achievements: Vec<Achievement>,
}

impl AchievementManager {
    pub closed spec fn spec_achievements(&self) -> Seq<Achievement> {
        self.achievements@
    }

    pub fn new() -> (r: Self)
        ensures
            r.spec_achievements() == Seq::<Achievement>::empty(),
    {
        AchievementManager { achievements: Vec::new() }
    }

    /// Loading from storage happens outside the library; nothing to do here.
    pub fn load(&mut self) -> (r: Result<(), String>)
        ensures
            r is Ok,
            final(self).spec_achievements() == old(self).spec_achievements(),
    {
        Ok(())
    }

    pub fn add(&mut self, achievement: Achievement)
        ensures
            final(self).spec_achievements() == old(self).spec_achievements().push(achievement),
    {
        self.achievements.push(achievement);
    }

    /// The first achievement with `id`.
    pub fn get_achievement_by_id(&self, id: i32) -> (r: Option<&Achievement>)
        ensures
            match r {
                Some(a) => exists|i: int|
                    0 <= i < self.spec_achievements().len() && self.spec_achievements()[i] == *a
                        && a.spec_id() == id && forall|j: int|
                        0 <= j < i ==> #[trigger] self.spec_achievements()[j].spec_id() != id,
                None => forall|j: int|
                    0 <= j < self.spec_achievements().len()
                        ==> #[trigger] self.spec_achievements()[j].spec_id() != id,
            },
    {
        let mut i: usize = 0;
        while i < self.achievements.len()
            invariant
                i <= self.achievements@.len(),
                forall|j: int| 0 <= j < i ==> #[trigger] self.achievements@[j].spec_id() != id,
            decreases self.achievements@.len() - i,
        {
            if self.achievements[i].id == id {
                assert(self.spec_achievements()[i as int] == self.achievements@[i as int]);
                return Some(&self.achievements[i]);
            }
            i = i + 1;
        }
        None
    }

    /// The achievements of `category`, in order.
    pub fn get_achievements_by_category(&self, category: &str) -> (r: Vec<&Achievement>)
        ensures
            r@.len() <= self.spec_achievements().len(),
            forall|k: int| 0 <= k < r@.len() ==> (#[trigger] r@[k]).spec_category() == category@,
            r@.len() == self.spec_achievements().filter(
                |a: Achievement| a.spec_category() == category@,
            ).len(),
            forall|k: int|
                0 <= k < r@.len() ==> *#[trigger] r@[k] == self.spec_achievements().filter(
                    |a: Achievement| a.spec_category() == category@,
                )[k],
    {
        let wanted = category.to_owned();
        let mut out: Vec<&Achievement> = Vec::new();
        let mut i: usize = 0;
        let ghost pred = |a: Achievement| a.spec_category() == category@;
        while i < self.achievements.len()
            invariant
                i <= self.achievements@.len(),
                wanted@ == category@,
                pred == (|a: Achievement| a.spec_category() == category@),
                out@.len() == self.achievements@.take(i as int).filter(pred).len(),
                forall|k: int|
                    0 <= k < out@.len() ==> *#[trigger] out@[k] == self.achievements@.take(
                        i as int,
                    ).filter(pred)[k],
            decreases self.achievements@.len() - i,
        {
            let a = &self.achievements[i];
            proof {
                assert(self.achievements@.take(i + 1) =~= self.achievements@.take(i as int).push(
                    *a,
                ));
                self.achievements@.take(i as int).lemma_filter_push(*a, pred);
            }
            if a.category == wanted {
                out.push(a);
            }
            i = i + 1;
        }
        proof {
            assert(self.achievements@.take(self.achievements@.len() as int)
                =~= self.achievements@);
            let f = self.achievements@.filter(pred);
            assert forall|k: int| 0 <= k < out@.len() implies (#[trigger] out@[k]).spec_category()
                == category@ by {
                self.achievements@.lemma_filter_pred(pred, k);
            }
        }
        out
    }
}

} // verus!
