//! The quest engine: objectives, stages, quests and their rewards, the
//! tracker of accepted quests, and the system that answers quest commands.

use vstd::prelude::*;
use crate::adventure_game::AdventureGame;
use crate::chain::System;
use crate::json::{
    get_int, get_list, get_text, int_field, list_field, narrow, narrowed, text_field,
};
use crate::strmap::{StrMap, StrSet};
use crate::text::{concat2, concat3, decimal, decimal_nat, render_int, render_nat, str_equal};

verus! {

/// Where a quest stands in its life.
#[derive(Debug, Clone, Copy, PartialEq, Eq, Structural)]
pub enum QuestStatus {
    Available,
    Active,
    Completed,
    Failed,
    Abandoned,
    Blocked,
}

/// What an objective asks of the player.
#[derive(Debug, Clone, Copy, PartialEq, Eq, Structural)]
pub enum ObjectiveType {
    Kill,
    Collect,
    Explore,
    Talk,
    Defend,
    Deliver,
    Discover,
    Puzzle,
}

/// How hard a quest is meant to be.
#[derive(Debug, Clone, Copy, PartialEq, Eq, Structural)]
pub enum QuestDifficulty {
    Trivial,
    Easy,
    Moderate,
    Challenging,
    Hard,
    Legendary,
}

/// `a / b` rounded towards zero, for `b` other than zero.
pub open spec fn quotient(a: int, b: int) -> int {
    if a >= 0 && b > 0 {
        a / b
    } else if a < 0 && b > 0 {
        -((-a) / b)
    } else if a >= 0 && b < 0 {
        -(a / (-b))
    } else {
        (-a) / (-b)
    }
}

/// `x` brought into the range of `i32`.
pub open spec fn clamped(x: int) -> int {
    if x < i32::MIN {
        i32::MIN as int
    } else if x > i32::MAX {
        i32::MAX as int
    } else {
        x
    }
}

/// `a / b` rounded towards zero and brought into the range of `i32`.
pub fn divide(a: i128, b: i128) -> (r: i32)
    requires
        b != 0,
        -0x10_0000_0000_0000_0000_0000_0000 <= a <= 0x10_0000_0000_0000_0000_0000_0000,
        -0x10_0000_0000_0000_0000_0000_0000 <= b <= 0x10_0000_0000_0000_0000_0000_0000,
    ensures
        r == clamped(quotient(a as int, b as int)),
{
    let x: u128 = if a >= 0 {
        a as u128
    } else {
        (-a) as u128
    };
    let y: u128 = if b >= 0 {
        b as u128
    } else {
        (-b) as u128
    };
    let q: u128 = x / y;
    let negative = (a < 0) != (b < 0);
    if negative {
        if q > 0x8000_0000 {
            i32::MIN
        } else {
            (-(q as i64)) as i32
        }
    } else if q > 0x7fff_ffff {
        i32::MAX
    } else {
        q as i32
    }
}

/// The share of `required` that `current` makes, in percent, rounded
/// towards zero; 100 where nothing is required.
pub open spec fn percent(current: int, required: int) -> int {
    if required == 0 {
        100
    } else {
        clamped(quotient(current * 100, required))
    }
}

/// A single measurable goal within a stage.
#[derive(Debug, Clone, PartialEq, Eq)]
pub struct QuestObjective {
    pub objective_id: String,
    pub obj_type: ObjectiveType,
    pub description: String,
    pub target: String,
    pub required_count: i32,
    pub current_count: i32,
    pub is_optional: bool,
    pub completion_reward: i32,
}

impl QuestObjective {
    /// A required objective on which no progress has been made.
    pub fn new(
        objective_id: String,
        obj_type: ObjectiveType,
        description: String,
        target: String,
        required_count: i32,
    ) -> (r: Self)
        ensures
            r == (QuestObjective {
                objective_id,
                obj_type,
                description,
                target,
                required_count,
                current_count: 0,
                is_optional: false,
                completion_reward: 0,
            }),
    {
        QuestObjective {
            objective_id,
            obj_type,
            description,
            target,
            required_count,
            current_count: 0,
            is_optional: false,
            completion_reward: 0,
        }
    }

    /// Whether the count has reached what is required.
    pub open spec fn done(&self) -> bool {
        self.current_count >= self.required_count
    }

    /// Whether the count has reached what is required.
    pub fn is_complete(&self) -> (r: bool)
        ensures
            r == self.done(),
    {
        self.current_count >= self.required_count
    }

    /// Caps the count at what is required and returns by how much the count
    /// changed, which is never more than zero. The amount is not counted.
    pub fn progress(&mut self, _amount: i32) -> (r: i32)
        requires
            old(self).current_count - old(self).required_count <= 0x8000_0000,
        ensures
            *final(self) == (QuestObjective {
                current_count: if old(self).current_count <= old(self).required_count {
                    old(self).current_count
                } else {
                    old(self).required_count
                },
                ..*old(self)
            }),
            r == final(self).current_count - old(self).current_count,
    {
        let old_count = self.current_count;
        if self.required_count < self.current_count {
            self.current_count = self.required_count;
        }
        self.current_count - old_count
    }

    /// The progress in percent.
    pub open spec fn share(&self) -> int {
        percent(self.current_count as int, self.required_count as int)
    }

    /// The progress in percent: 100 where nothing is required.
    pub fn get_progress_percentage(&self) -> (r: i32)
        ensures
            r == self.share(),
            self.required_count == 0 ==> r == 100,
    {
        if self.required_count == 0 {
            100
        } else {
            divide(self.current_count as i128 * 100, self.required_count as i128)
        }
    }
}

/// The sum of the progress, in percent, of the objectives.
pub open spec fn share_sum(objectives: Seq<QuestObjective>) -> int
    decreases objectives.len(),
{
    if objectives.len() == 0 {
        0
    } else {
        share_sum(objectives.drop_last()) + objectives.last().share()
    }
}

/// How many of the objectives are optional and done.
pub open spec fn optional_done(objectives: Seq<QuestObjective>) -> int
    decreases objectives.len(),
{
    if objectives.len() == 0 {
        0
    } else {
        optional_done(objectives.drop_last()) + if objectives.last().is_optional
            && objectives.last().done() {
            1int
        } else {
            0int
        }
    }
}

proof fn lemma_share_sum_bounds(objectives: Seq<QuestObjective>)
    ensures
        i32::MIN * objectives.len() <= share_sum(objectives) <= i32::MAX * objectives.len(),
        0 <= optional_done(objectives) <= objectives.len(),
    decreases objectives.len(),
{
    if objectives.len() > 0 {
        lemma_share_sum_bounds(objectives.drop_last());
        assert(i32::MIN * objectives.len() == i32::MIN * (objectives.len() - 1) + i32::MIN)
            by (nonlinear_arith);
        assert(i32::MAX * objectives.len() == i32::MAX * (objectives.len() - 1) + i32::MAX)
            by (nonlinear_arith);
    }
}

/// An ordered phase of a quest, with the objectives that gate it.
#[derive(Debug, Clone, PartialEq, Eq)]
pub struct QuestStage {
    pub stage_id: String,
    pub stage_number: i32,
    pub title: String,
    pub description: String,
    pub objectives: Vec<QuestObjective>,
    pub stage_reward_xp: i32,
}

impl QuestStage {
    /// A stage without objectives and without a reward.
    pub fn new(stage_id: String, stage_number: i32, title: String, description: String) -> (r:
        Self)
        ensures
            r.stage_id == stage_id,
            r.stage_number == stage_number,
            r.title == title,
            r.description == description,
            r.objectives@.len() == 0,
            r.stage_reward_xp == 0,
    {
        QuestStage {
            stage_id,
            stage_number,
            title,
            description,
            objectives: Vec::new(),
            stage_reward_xp: 0,
        }
    }

    /// Adds `objective` after the objectives already there.
    pub fn add_objective(&mut self, objective: QuestObjective)
        ensures
            final(self).objectives@ == old(self).objectives@.push(objective),
            final(self).stage_id == old(self).stage_id,
            final(self).stage_number == old(self).stage_number,
            final(self).title == old(self).title,
            final(self).description == old(self).description,
            final(self).stage_reward_xp == old(self).stage_reward_xp,
    {
        self.objectives.push(objective);
    }

    /// Whether every objective that is not optional is done.
    pub open spec fn done(&self) -> bool {
        forall|i: int|
            0 <= i < self.objectives@.len() && !self.objectives@[i].is_optional ==> (
            #[trigger] self.objectives@[i]).done()
    }

    /// Whether every objective that is not optional is done.
    pub fn is_complete(&self) -> (r: bool)
        ensures
            r == self.done(),
    {
        let mut i: usize = 0;
        while i < self.objectives.len()
            invariant
                i <= self.objectives@.len(),
                forall|j: int|
                    0 <= j < i && !self.objectives@[j].is_optional ==> (
                    #[trigger] self.objectives@[j]).done(),
            decreases self.objectives@.len() - i,
        {
            if !self.objectives[i].is_optional && !self.objectives[i].is_complete() {
                return false;
            }
            i = i + 1;
        }
        true
    }

    /// The mean of the objectives' progress in percent, rounded towards
    /// zero; 100 for a stage without objectives.
    pub open spec fn share(&self) -> int {
        if self.objectives@.len() == 0 {
            100
        } else {
            quotient(share_sum(self.objectives@), self.objectives@.len() as int)
        }
    }

    /// The mean of the objectives' progress in percent: 100 for a stage
    /// without objectives.
    pub fn get_progress_percentage(&self) -> (r: i32)
        ensures
            r == self.share(),
            self.objectives@.len() == 0 ==> r == 100,
    {
        let n = self.objectives.len();
        if n == 0 {
            return 100;
        }
        let mut total: i128 = 0;
        let mut i: usize = 0;
        while i < n
            invariant
                i <= n,
                n == self.objectives@.len(),
                total == share_sum(self.objectives@.subrange(0, i as int)),
                i32::MIN * i <= total <= i32::MAX * i,
            decreases n - i,
        {
            let p = self.objectives[i].get_progress_percentage();
            proof {
                let now = self.objectives@.subrange(0, i + 1);
                assert(now.drop_last() =~= self.objectives@.subrange(0, i as int));
                lemma_share_sum_bounds(now);
                assert(i32::MAX * i <= i32::MAX * usize::MAX) by (nonlinear_arith)
                    requires
                        i <= usize::MAX,
                ;
                assert(i32::MIN * i >= i32::MIN * usize::MAX) by (nonlinear_arith)
                    requires
                        i <= usize::MAX,
                ;
            }
            total = total + p as i128;
            i = i + 1;
        }
        proof {
            assert(self.objectives@.subrange(0, n as int) =~= self.objectives@);
            let s = share_sum(self.objectives@);
            assert(i32::MAX * n <= i32::MAX * usize::MAX) by (nonlinear_arith)
                requires
                    n <= usize::MAX,
            ;
            assert(i32::MIN * n >= i32::MIN * usize::MAX) by (nonlinear_arith)
                requires
                    n <= usize::MAX,
            ;
            lemma_mean_in_range(s, n as int);
        }
        divide(total, n as i128)
    }

    /// How many objectives are optional and done.
    pub fn get_optional_completed(&self) -> (r: i32)
        requires
            self.objectives@.len() <= i32::MAX,
        ensures
            r == optional_done(self.objectives@),
    {
        let mut count: i32 = 0;
        let mut i: usize = 0;
        while i < self.objectives.len()
            invariant
                i <= self.objectives@.len(),
                self.objectives@.len() <= i32::MAX,
                count == optional_done(self.objectives@.subrange(0, i as int)),
                0 <= count <= i,
            decreases self.objectives@.len() - i,
        {
            proof {
                let now = self.objectives@.subrange(0, i + 1);
                assert(now.drop_last() =~= self.objectives@.subrange(0, i as int));
            }
            if self.objectives[i].is_optional && self.objectives[i].is_complete() {
                count = count + 1;
            }
            i = i + 1;
        }
        assert(self.objectives@.subrange(0, self.objectives@.len() as int) =~= self.objectives@);
        count
    }
}

/// The mean of `n` values of `i32` is a value of `i32`.
proof fn lemma_mean_in_range(s: int, n: int)
    requires
        n > 0,
        i32::MIN * n <= s <= i32::MAX * n,
    ensures
        clamped(quotient(s, n)) == quotient(s, n),
{
    if s >= 0 {
        assert(s / n <= i32::MAX) by (nonlinear_arith)
            requires
                n > 0,
                0 <= s <= i32::MAX * n,
        ;
        assert(s / n >= 0) by (nonlinear_arith)
            requires
                n > 0,
                0 <= s,
        ;
    } else {
        assert((-s) / n <= 0x8000_0000) by (nonlinear_arith)
            requires
                n > 0,
                0 <= -s <= 0x8000_0000 * n,
        ;
        assert((-s) / n >= 0) by (nonlinear_arith)
            requires
                n > 0,
                0 <= -s,
        ;
    }
}

/// What a finished quest pays.
#[derive(Debug, Clone)]
pub struct QuestReward {
    pub experience_points: i32,
    pub gold: i32,
    pub items: Vec<String>,
    pub reputation_changes: StrMap<i32>,
    pub special_rewards: StrMap<serde_json::Value>,
}

impl QuestReward {
    /// The invariant of the maps the reward is made of.
    pub open spec fn wf(&self) -> bool {
        self.reputation_changes.wf() && self.special_rewards.wf()
    }
}

impl Default for QuestReward {
    /// No reward at all.
    fn default() -> (r: Self)
        ensures
            r.wf(),
            r.experience_points == 0,
            r.gold == 0,
            r.items@.len() == 0,
            r.reputation_changes@ == Map::<Seq<char>, i32>::empty(),
            r.special_rewards@ == Map::<Seq<char>, serde_json::Value>::empty(),
    {
        QuestReward {
            experience_points: 0,
            gold: 0,
            items: Vec::new(),
            reputation_changes: StrMap::new(),
            special_rewards: StrMap::new(),
        }
    }
}

/// Ten times the factor by which experience is scaled: one tenth more for
/// each level that the player is below the giver, half for a player more
/// than five levels above, and one otherwise.
pub open spec fn multiplier_tenths(player_level: int, giver_level: int) -> int {
    let diff = player_level - giver_level;
    if diff < 0 {
        10 - diff
    } else if diff > 5 {
        5
    } else {
        10
    }
}

/// The experience that `base` becomes for a player of `player_level`,
/// rounded towards zero.
pub open spec fn scaled_xp(base: int, player_level: int, giver_level: int) -> int {
    clamped(quotient(base * multiplier_tenths(player_level, giver_level), 10))
}

/// Ten times the factor by which experience is scaled.
pub fn xp_multiplier_tenths(player_level: i32, giver_level: i32) -> (r: i64)
    ensures
        r == multiplier_tenths(player_level as int, giver_level as int),
{
    let diff: i64 = player_level as i64 - giver_level as i64;
    if diff < 0 {
        10 - diff
    } else if diff > 5 {
        5
    } else {
        10
    }
}

/// A quest: its stages, what it needs, what it pays and where it stands.
#[derive(Debug, Clone)]
pub struct Quest {
    pub quest_id: String,
    pub title: String,
    pub description: String,
    pub giver_npc: String,
    pub quest_giver_level: i32,
    pub difficulty: QuestDifficulty,
    pub stages: Vec<QuestStage>,
    pub rewards: QuestReward,
    pub prerequisites: Vec<String>,
    pub blocking_quests: Vec<String>,
    pub time_limit_hours: Option<i32>,
    pub status: QuestStatus,
    pub acceptance_time: Option<String>,
    pub completion_time: Option<String>,
    pub current_stage_index: usize,
    pub is_radiant: bool,
    pub chain_id: Option<String>,
}

/// The time of the clock, as year, month, day, hour, minute and second.
/// `chrono::Utc::now` reads the clock, so nothing is claimed of the text;
/// it gives up only where the clock stands before the year 1970.
#[verifier::external_body]
fn timestamp_now() -> (r: String) {
    chrono::Utc::now().format("%Y-%m-%d %H:%M:%S").to_string()
}

/// Whether every one of `needed` is in `completed`.
pub open spec fn all_completed(needed: Seq<String>, completed: Set<Seq<char>>) -> bool {
    forall|i: int| 0 <= i < needed.len() ==> completed.contains(#[trigger] needed[i]@)
}

impl Quest {
    /// The invariant of the maps the quest is made of.
    pub open spec fn wf(&self) -> bool {
        self.rewards.wf()
    }

    /// An available quest of moderate difficulty, without stages, rewards or
    /// prerequisites, given by someone of level one.
    pub fn new(quest_id: String, title: String, description: String, giver_npc: String) -> (r:
        Self)
        ensures
            r.wf(),
            r.quest_id == quest_id,
            r.title == title,
            r.description == description,
            r.giver_npc == giver_npc,
            r.quest_giver_level == 1,
            r.difficulty == QuestDifficulty::Moderate,
            r.stages@.len() == 0,
            r.rewards.experience_points == 0,
            r.rewards.gold == 0,
            r.rewards.items@.len() == 0,
            r.prerequisites@.len() == 0,
            r.blocking_quests@.len() == 0,
            r.time_limit_hours is None,
            r.status == QuestStatus::Available,
            r.acceptance_time is None,
            r.completion_time is None,
            r.current_stage_index == 0,
            !r.is_radiant,
            r.chain_id is None,
    {
        Quest {
            quest_id,
            title,
            description,
            giver_npc,
            quest_giver_level: 1,
            difficulty: QuestDifficulty::Moderate,
            stages: Vec::new(),
            rewards: QuestReward::default(),
            prerequisites: Vec::new(),
            blocking_quests: Vec::new(),
            time_limit_hours: None,
            status: QuestStatus::Available,
            acceptance_time: None,
            completion_time: None,
            current_stage_index: 0,
            is_radiant: false,
            chain_id: None,
        }
    }

    /// The stage the quest is on, if the index names one.
    pub fn get_current_stage(&self) -> (r: Option<&QuestStage>)
        ensures
            r is Some <==> self.current_stage_index < self.stages@.len(),
            r is Some ==> *r->0 == self.stages@[self.current_stage_index as int],
    {
        if self.current_stage_index < self.stages.len() {
            Some(&self.stages[self.current_stage_index])
        } else {
            None
        }
    }

    /// Moves on to the next stage if there is one; says whether it did.
    pub fn advance_stage(&mut self) -> (r: bool)
        ensures
            r == (old(self).current_stage_index + 1 < old(self).stages@.len()),
            r ==> *final(self) == (Quest {
                current_stage_index: (old(self).current_stage_index + 1) as usize,
                ..*old(self)
            }),
            !r ==> *final(self) == *old(self),
    {
        let n = self.stages.len();
        if n > 0 && self.current_stage_index < n - 1 {
            self.current_stage_index = self.current_stage_index + 1;
            true
        } else {
            false
        }
    }

    /// Whether the quest is on its last stage and that stage is done.
    pub open spec fn finished(&self) -> bool {
        &&& self.stages@.len() > 0
        &&& self.current_stage_index == self.stages@.len() - 1
        &&& self.stages@[self.current_stage_index as int].done()
    }

    /// Whether the quest is on its last stage and every objective of that
    /// stage that is not optional is done.
    pub fn is_complete(&self) -> (r: bool)
        ensures
            r == self.finished(),
    {
        let n = self.stages.len();
        if n == 0 || self.current_stage_index != n - 1 {
            return false;
        }
        self.stages[self.current_stage_index].is_complete()
    }

    /// Marks the quest completed at the time `time`.
    pub fn mark_complete_at(&mut self, time: String)
        ensures
            *final(self) == (Quest {
                status: QuestStatus::Completed,
                completion_time: Some(time),
                ..*old(self)
            }),
    {
        self.status = QuestStatus::Completed;
        self.completion_time = Some(time);
    }

    /// Marks the quest completed now.
    pub fn mark_complete(&mut self)
        ensures
            final(self).status == QuestStatus::Completed,
            final(self).completion_time is Some,
            *final(self) == (Quest {
                status: final(self).status,
                completion_time: final(self).completion_time,
                ..*old(self)
            }),
    {
        self.mark_complete_at(timestamp_now());
    }

    /// Marks the quest failed at the time `time`.
    pub fn mark_failed_at(&mut self, time: String)
        ensures
            *final(self) == (Quest {
                status: QuestStatus::Failed,
                completion_time: Some(time),
                ..*old(self)
            }),
    {
        self.status = QuestStatus::Failed;
        self.completion_time = Some(time);
    }

    /// Marks the quest failed now.
    pub fn mark_failed(&mut self)
        ensures
            final(self).status == QuestStatus::Failed,
            final(self).completion_time is Some,
            *final(self) == (Quest {
                status: final(self).status,
                completion_time: final(self).completion_time,
                ..*old(self)
            }),
    {
        self.mark_failed_at(timestamp_now());
    }

    /// Whether every prerequisite is among the completed quests.
    pub fn can_accept(&self, completed_quests: &StrSet) -> (r: bool)
        requires
            completed_quests.wf(),
        ensures
            r == all_completed(self.prerequisites@, completed_quests@),
    {
        let mut i: usize = 0;
        while i < self.prerequisites.len()
            invariant
                i <= self.prerequisites@.len(),
                completed_quests.wf(),
                forall|j: int|
                    0 <= j < i ==> completed_quests@.contains(#[trigger] self.prerequisites@[j]@),
            decreases self.prerequisites@.len() - i,
        {
            if !completed_quests.contains(self.prerequisites[i].as_str()) {
                return false;
            }
            i = i + 1;
        }
        true
    }

    /// The rewards for a player of `player_level`: the experience scaled by
    /// the difference in level, everything else as it is.
    pub fn get_level_adjusted_rewards(&self, player_level: i32) -> (r: QuestReward)
        requires
            self.wf(),
        ensures
            r.wf(),
            r.experience_points == scaled_xp(
                self.rewards.experience_points as int,
                player_level as int,
                self.quest_giver_level as int,
            ),
            r.gold == self.rewards.gold,
            r.items@ == self.rewards.items@,
            r.reputation_changes@ == self.rewards.reputation_changes@,
            r.special_rewards@ == self.rewards.special_rewards@,
    {
        let tenths = xp_multiplier_tenths(player_level, self.quest_giver_level);
        let base = self.rewards.experience_points;
        assert(-0x1_0000_0000_0000_0000 <= base * tenths <= 0x1_0000_0000_0000_0000)
            by (nonlinear_arith)
            requires
                -0x8000_0000 <= base <= 0x8000_0000,
                0 <= tenths <= 0x2_0000_0000,
        ;
        let xp = divide(base as i128 * tenths as i128, 10);
        let items = self.rewards.items.clone();
        let reputation_changes = self.rewards.reputation_changes.clone();
        let special_rewards = self.rewards.special_rewards.clone();
        proof {
            assert(items@ =~= self.rewards.items@);
            assert(reputation_changes.values() =~= self.rewards.reputation_changes.values());
            assert(special_rewards.values() =~= self.rewards.special_rewards.values());
            reputation_changes.lemma_same_entries(&self.rewards.reputation_changes);
            special_rewards.lemma_same_entries(&self.rewards.special_rewards);
        }
        QuestReward {
            experience_points: xp,
            gold: self.rewards.gold,
            items,
            reputation_changes,
            special_rewards,
        }
    }
}

/// The quests a player has taken on, has completed and has failed, with the
/// log of what happened when.
#[derive(Debug, Clone)]
pub struct QuestTracker {
    pub active_quests: StrMap<Quest>,
    pub completed_quests: StrSet,
    pub failed_quests: StrSet,
    /// Quest, new status and time, oldest first. Entries are only added.
    pub quest_history: Vec<(String, QuestStatus, String)>,
}

impl QuestTracker {
    /// The invariant of the tracker: every active quest is filed under its
    /// own identifier, is marked active, and is not among the completed.
    pub open spec fn wf(&self) -> bool {
        &&& self.active_quests.wf()
        &&& self.completed_quests.wf()
        &&& self.failed_quests.wf()
        &&& forall|id: Seq<char>| #[trigger]
            self.active_quests@.contains_key(id) ==> {
                &&& self.active_quests@[id].wf()
                &&& self.active_quests@[id].quest_id@ == id
                &&& self.active_quests@[id].status == QuestStatus::Active
                &&& !self.completed_quests@.contains(id)
            }
    }

    /// A tracker that knows of no quest.
    pub fn new() -> (r: Self)
        ensures
            r.wf(),
            r.active_quests@ == Map::<Seq<char>, Quest>::empty(),
            r.completed_quests@ == Set::<Seq<char>>::empty(),
            r.failed_quests@ == Set::<Seq<char>>::empty(),
            r.quest_history@.len() == 0,
    {
        QuestTracker {
            active_quests: StrMap::new(),
            completed_quests: StrSet::new(),
            failed_quests: StrSet::new(),
            quest_history: Vec::new(),
        }
    }

    /// Whether `quest` may be accepted: it is available, it is neither
    /// active nor completed, and all its prerequisites are completed.
    pub open spec fn admits(&self, quest: Quest) -> bool {
        &&& quest.status == QuestStatus::Available
        &&& !self.active_quests@.contains_key(quest.quest_id@)
        &&& !self.completed_quests@.contains(quest.quest_id@)
        &&& all_completed(quest.prerequisites@, self.completed_quests@)
    }

    /// Whether nothing but the log and the active quests differ between
    /// `self` and `after`, and the log of `after` is that of `self` with one
    /// more entry: `id`, `status` and `time`.
    pub open spec fn logged(
        &self,
        after: QuestTracker,
        id: Seq<char>,
        status: QuestStatus,
        time: String,
    ) -> bool {
        &&& after.quest_history@.len() == self.quest_history@.len() + 1
        &&& after.quest_history@.subrange(0, self.quest_history@.len() as int)
            == self.quest_history@
        &&& after.quest_history@.last().0@ == id
        &&& after.quest_history@.last().1 == status
        &&& after.quest_history@.last().2 == time
    }

    /// Whether accepting `quest` at the time `time` may turn the tracker
    /// `self` into `after` with the result `r`. A quest that may be accepted
    /// becomes active, is stamped with the time and filed under its
    /// identifier, and the log gets an entry. Otherwise nothing changes.
    pub open spec fn took_on(&self, quest: Quest, time: String, after: QuestTracker, r: bool) -> bool {
        &&& r == self.admits(quest)
        &&& r ==> after.active_quests@ == self.active_quests@.insert(
            quest.quest_id@,
            Quest { status: QuestStatus::Active, acceptance_time: Some(time), ..quest },
        )
        &&& r ==> after.completed_quests == self.completed_quests
        &&& r ==> after.failed_quests == self.failed_quests
        &&& r ==> self.logged(after, quest.quest_id@, QuestStatus::Active, time)
        &&& !r ==> after == *self
    }

    /// Whether failing the quest `quest_id` at the time `time` may turn the
    /// tracker `self` into `after` with the result `r`. An active quest
    /// leaves the active quests, its identifier joins the failed, and the
    /// log gets an entry. Otherwise nothing changes.
    pub open spec fn failed(&self, quest_id: Seq<char>, time: String, after: QuestTracker, r: bool) -> bool {
        &&& r == self.active_quests@.contains_key(quest_id)
        &&& r ==> after.active_quests@ == self.active_quests@.remove(quest_id)
        &&& r ==> after.failed_quests@ == self.failed_quests@.insert(quest_id)
        &&& r ==> after.completed_quests == self.completed_quests
        &&& r ==> self.logged(after, quest_id, QuestStatus::Failed, time)
        &&& !r ==> after == *self
    }

    /// Accepts `quest` at the time `time` if it may be accepted: the quest
    /// becomes active, is stamped with the time and filed under its
    /// identifier, and the log gets an entry. Otherwise nothing changes.
    pub fn accept_quest_at(&mut self, quest: Quest, time: String) -> (r: bool)
        requires
            old(self).wf(),
            quest.wf(),
        ensures
            final(self).wf(),
            old(self).took_on(quest, time, *final(self), r),
    {
        let available = match quest.status {
            QuestStatus::Available => true,
            _ => false,
        };
        if !available || self.active_quests.contains_key(quest.quest_id.as_str())
            || self.completed_quests.contains(quest.quest_id.as_str()) || !quest.can_accept(
            &self.completed_quests,
        ) {
            return false;
        }
        let mut quest = quest;
        quest.status = QuestStatus::Active;
        quest.acceptance_time = Some(time.clone());
        let quest_id = quest.quest_id.clone();
        let _ = self.active_quests.insert(quest_id.clone(), quest);
        self.record_history(quest_id, QuestStatus::Active, time);
        true
    }

    /// Accepts `quest` now if it may be accepted; says whether it did.
    pub fn accept_quest(&mut self, quest: Quest) -> (r: bool)
        requires
            old(self).wf(),
            quest.wf(),
        ensures
            final(self).wf(),
            r == old(self).admits(quest),
            exists|time: String| #[trigger] old(self).took_on(quest, time, *final(self), r),
    {
        let time = timestamp_now();
        let r = self.accept_quest_at(quest, time);
        assert(old(self).took_on(quest, time, *self, r));
        r
    }

    /// Whether completing the quest `quest_id` at the time `time` may turn
    /// the tracker `self` into `after` with the result `r`. A quest that is
    /// active and finished leaves the active quests, its identifier joins
    /// the completed, and the log gets an entry. Otherwise nothing changes.
    pub open spec fn completed(
        &self,
        quest_id: Seq<char>,
        time: String,
        after: QuestTracker,
        r: bool,
    ) -> bool {
        &&& r == (self.active_quests@.contains_key(quest_id)
            && self.active_quests@[quest_id].finished())
        &&& r ==> after.active_quests@ == self.active_quests@.remove(quest_id)
        &&& r ==> after.completed_quests@ == self.completed_quests@.insert(quest_id)
        &&& r ==> after.failed_quests == self.failed_quests
        &&& r ==> self.logged(after, quest_id, QuestStatus::Completed, time)
        &&& !r ==> after == *self
    }

    /// Completes the quest `quest_id` at the time `time` if it is active and
    /// finished: it leaves the active quests, its identifier joins the
    /// completed, and the log gets an entry. Otherwise nothing changes.
    pub fn complete_quest_at(&mut self, quest_id: &str, time: String) -> (r: bool)
        requires
            old(self).wf(),
        ensures
            final(self).wf(),
            old(self).completed(quest_id@, time, *final(self), r),
    {
        let finished = match self.active_quests.get(quest_id) {
            Some(quest) => quest.is_complete(),
            None => false,
        };
        if !finished {
            return false;
        }
        let _ = self.completed_quests.insert(String::from_str(quest_id));
        let _ = self.active_quests.remove(quest_id);
        self.record_history(String::from_str(quest_id), QuestStatus::Completed, time);
        true
    }

    /// Completes the quest `quest_id` now if it is active and finished; says
    /// whether it did.
    pub fn complete_quest(&mut self, quest_id: &str) -> (r: bool)
        requires
            old(self).wf(),
        ensures
            final(self).wf(),
            r == (old(self).active_quests@.contains_key(quest_id@) && old(
                self,
            ).active_quests@[quest_id@].finished()),
            exists|time: String| #[trigger] old(self).completed(quest_id@, time, *final(self), r),
    {
        let time = timestamp_now();
        let r = self.complete_quest_at(quest_id, time);
        assert(old(self).completed(quest_id@, time, *self, r));
        r
    }

    /// Fails the quest `quest_id` at the time `time` if it is active: it
    /// leaves the active quests, its identifier joins the failed, and the
    /// log gets an entry. Otherwise nothing changes.
    pub fn fail_quest_at(&mut self, quest_id: &str, time: String) -> (r: bool)
        requires
            old(self).wf(),
        ensures
            final(self).wf(),
            old(self).failed(quest_id@, time, *final(self), r),
    {
        if !self.active_quests.contains_key(quest_id) {
            return false;
        }
        let _ = self.failed_quests.insert(String::from_str(quest_id));
        let _ = self.active_quests.remove(quest_id);
        self.record_history(String::from_str(quest_id), QuestStatus::Failed, time);
        true
    }

    /// Fails the quest `quest_id` now if it is active; says whether it did.
    pub fn fail_quest(&mut self, quest_id: &str) -> (r: bool)
        requires
            old(self).wf(),
        ensures
            final(self).wf(),
            r == old(self).active_quests@.contains_key(quest_id@),
            exists|time: String| #[trigger] old(self).failed(quest_id@, time, *final(self), r),
    {
        let time = timestamp_now();
        let r = self.fail_quest_at(quest_id, time);
        assert(old(self).failed(quest_id@, time, *self, r));
        r
    }

    /// Whether `quest` may be accepted.
    pub fn would_accept(&self, quest: &Quest) -> (r: bool)
        requires
            self.wf(),
        ensures
            r == self.admits(*quest),
    {
        let available = match quest.status {
            QuestStatus::Available => true,
            _ => false,
        };
        available && !self.active_quests.contains_key(quest.quest_id.as_str())
            && !self.completed_quests.contains(quest.quest_id.as_str()) && quest.can_accept(
            &self.completed_quests,
        )
    }

    /// The active quest `quest_id`, if there is one.
    pub fn get_quest(&self, quest_id: &str) -> (r: Option<&Quest>)
        requires
            self.wf(),
        ensures
            r is Some == self.active_quests@.contains_key(quest_id@),
            r is Some ==> *r->0 == self.active_quests@[quest_id@],
    {
        self.active_quests.get(quest_id)
    }

    /// How many quests are active.
    pub fn get_active_count(&self) -> (r: usize)
        requires
            self.wf(),
        ensures
            r == self.active_quests.keys().len(),
    {
        self.active_quests.len()
    }

    /// How many quests are completed.
    pub fn get_completed_count(&self) -> (r: usize)
        requires
            self.wf(),
        ensures
            r == self.completed_quests.members().len(),
    {
        self.completed_quests.len()
    }

    fn record_history(&mut self, quest_id: String, status: QuestStatus, time: String)
        ensures
            final(self).active_quests == old(self).active_quests,
            final(self).completed_quests == old(self).completed_quests,
            final(self).failed_quests == old(self).failed_quests,
            final(self).quest_history@ == old(self).quest_history@.push((quest_id, status, time)),
            old(self).logged(*final(self), quest_id@, status, time),
    {
        self.quest_history.push((quest_id, status, time));
        assert(self.quest_history@.subrange(0, old(self).quest_history@.len() as int)
            =~= old(self).quest_history@);
    }
}

/// The line that shows one objective: its description and its counts.
pub open spec fn objective_line(o: QuestObjective) -> Seq<char> {
    "    - "@ + o.description@ + " ("@ + decimal(o.current_count as int) + "/"@ + decimal(
        o.required_count as int,
    ) + ")\n"@
}

/// The lines that show the objectives, in order.
pub open spec fn objective_lines(objectives: Seq<QuestObjective>) -> Seq<char>
    decreases objectives.len(),
{
    if objectives.len() == 0 {
        Seq::empty()
    } else {
        objective_lines(objectives.drop_last()) + objective_line(objectives.last())
    }
}

/// The line that names a quest: its title and its description.
pub open spec fn quest_line(q: Quest) -> Seq<char> {
    "- "@ + q.title@ + ": "@ + q.description@ + "\n"@
}

/// What is shown of an active quest: its line, and the stage it is on with
/// the objectives of that stage.
pub open spec fn active_entry(q: Quest) -> Seq<char> {
    if q.current_stage_index < q.stages@.len() {
        let stage = q.stages@[q.current_stage_index as int];
        quest_line(q) + "  Current Stage: "@ + stage.title@ + "\n"@ + objective_lines(
            stage.objectives@,
        )
    } else {
        quest_line(q)
    }
}

/// What is shown of the active quests, in order.
pub open spec fn active_text(quests: Seq<Quest>) -> Seq<char>
    decreases quests.len(),
{
    if quests.len() == 0 {
        Seq::empty()
    } else {
        active_text(quests.drop_last()) + active_entry(quests.last())
    }
}

/// What is shown of the quests on offer, in order: the line of each quest
/// whose prerequisites are completed.
pub open spec fn offer_text(quests: Seq<Quest>, completed: Set<Seq<char>>) -> Seq<char>
    decreases quests.len(),
{
    if quests.len() == 0 {
        Seq::empty()
    } else if all_completed(quests.last().prerequisites@, completed) {
        offer_text(quests.drop_last(), completed) + quest_line(quests.last())
    } else {
        offer_text(quests.drop_last(), completed)
    }
}

fn append_objectives(out: &mut String, objectives: &Vec<QuestObjective>)
    ensures
        final(out)@ == old(out)@ + objective_lines(objectives@),
{
    let mut i: usize = 0;
    assert(out@ =~= old(out)@ + objective_lines(objectives@.subrange(0, 0)));
    while i < objectives.len()
        invariant
            i <= objectives@.len(),
            out@ == old(out)@ + objective_lines(objectives@.subrange(0, i as int)),
        decreases objectives@.len() - i,
    {
        let o = &objectives[i];
        let ghost before = out@;
        out.append("    - ");
        out.append(o.description.as_str());
        out.append(" (");
        out.append(render_int(o.current_count as i64).as_str());
        out.append("/");
        out.append(render_int(o.required_count as i64).as_str());
        out.append(")\n");
        proof {
            let now = objectives@.subrange(0, i + 1);
            assert(now.drop_last() =~= objectives@.subrange(0, i as int));
            assert(out@ =~= before + objective_line(*o));
            assert(out@ =~= old(out)@ + objective_lines(now));
        }
        i = i + 1;
    }
    assert(objectives@.subrange(0, objectives@.len() as int) =~= objectives@);
}

fn append_quest_line(out: &mut String, q: &Quest)
    ensures
        final(out)@ == old(out)@ + quest_line(*q),
{
    out.append("- ");
    out.append(q.title.as_str());
    out.append(": ");
    out.append(q.description.as_str());
    out.append("\n");
    assert(out@ =~= old(out)@ + quest_line(*q));
}

/// The system that offers quests and answers the quest commands.
#[derive(Debug)]
pub struct QuestSystem {
    pub tracker: QuestTracker,
    pub available_quests: StrMap<Quest>,
}

/// What accepting a quest by its identifier comes to.
pub enum Acceptance {
    /// No quest of that identifier is on offer.
    NotFound,
    /// The quest has a prerequisite that is not completed.
    PrerequisitesNotMet,
    /// The quest is not available, or it is active or completed already.
    Refused,
    /// The quest becomes active.
    Accepted,
}

impl QuestSystem {
    /// The invariant of the system: the tracker's, and every quest on offer
    /// is filed under its own identifier.
    pub open spec fn wf(&self) -> bool {
        &&& self.tracker.wf()
        &&& self.available_quests.wf()
        &&& forall|id: Seq<char>| #[trigger]
            self.available_quests@.contains_key(id) ==> self.available_quests@[id].wf()
                && self.available_quests@[id].quest_id@ == id
    }

    /// A system without quests.
    pub fn new() -> (r: Self)
        ensures
            r.wf(),
            r.available_quests@ == Map::<Seq<char>, Quest>::empty(),
            r.tracker.active_quests@ == Map::<Seq<char>, Quest>::empty(),
            r.tracker.completed_quests@ == Set::<Seq<char>>::empty(),
            r.tracker.failed_quests@ == Set::<Seq<char>>::empty(),
            r.tracker.quest_history@.len() == 0,
    {
        QuestSystem { tracker: QuestTracker::new(), available_quests: StrMap::new() }
    }

    /// Puts `quest` on offer under its identifier, in place of a quest
    /// that was on offer under it.
    pub fn add_available_quest(&mut self, quest: Quest)
        requires
            old(self).wf(),
            quest.wf(),
        ensures
            final(self).wf(),
            final(self).tracker == old(self).tracker,
            final(self).available_quests@ == old(self).available_quests@.insert(
                quest.quest_id@,
                quest,
            ),
    {
        let _ = self.available_quests.insert(quest.quest_id.clone(), quest);
    }

    /// The quests on offer, in ascending order of identifier.
    pub fn get_available_quests(&self) -> (r: Vec<&Quest>)
        requires
            self.wf(),
        ensures
            r@.len() == self.available_quests.values().len(),
            forall|i: int| 0 <= i < r@.len() ==> *r@[i] == self.available_quests.values()[i],
    {
        let mut out: Vec<&Quest> = Vec::new();
        let n = self.available_quests.len();
        let mut i: usize = 0;
        proof {
            self.available_quests.lemma_entries();
        }
        while i < n
            invariant
                i <= n,
                self.available_quests.wf(),
                n == self.available_quests.keys().len(),
                n == self.available_quests.values().len(),
                out@.len() == i,
                forall|j: int| 0 <= j < i ==> *out@[j] == self.available_quests.values()[j],
            decreases n - i,
        {
            out.push(self.available_quests.value_at(i));
            i = i + 1;
        }
        out
    }

    /// What accepting the quest `quest_id` comes to.
    pub open spec fn acceptance(&self, quest_id: Seq<char>) -> Acceptance {
        if !self.available_quests@.contains_key(quest_id) {
            Acceptance::NotFound
        } else if !all_completed(
            self.available_quests@[quest_id].prerequisites@,
            self.tracker.completed_quests@,
        ) {
            Acceptance::PrerequisitesNotMet
        } else if !self.tracker.admits(self.available_quests@[quest_id]) {
            Acceptance::Refused
        } else {
            Acceptance::Accepted
        }
    }

    /// Whether accepting the quest `quest_id` at the time `time` may turn the
    /// system `self` into `after` with the result `r`. On success the quest
    /// leaves the offer and becomes active, stamped with the time, and the
    /// message names its title. On failure nothing changes, and the message
    /// says why.
    pub open spec fn accepted(
        &self,
        quest_id: Seq<char>,
        time: String,
        after: QuestSystem,
        r: Result<String, String>,
    ) -> bool {
        &&& match self.acceptance(quest_id) {
            Acceptance::NotFound => r is Err && r->Err_0@ == "Quest not found"@,
            Acceptance::PrerequisitesNotMet => r is Err && r->Err_0@ == "Prerequisites not met"@,
            Acceptance::Refused => r is Err && r->Err_0@ == "Failed to accept quest"@,
            Acceptance::Accepted => r is Ok && r->Ok_0@ == "Accepted quest: "@
                + self.available_quests@[quest_id].title@,
        }
        &&& r is Err ==> after == *self
        &&& r is Ok ==> {
            &&& after.available_quests@ == self.available_quests@.remove(quest_id)
            &&& after.tracker.active_quests@ == self.tracker.active_quests@.insert(
                quest_id,
                Quest {
                    status: QuestStatus::Active,
                    acceptance_time: Some(time),
                    ..self.available_quests@[quest_id]
                },
            )
            &&& after.tracker.completed_quests == self.tracker.completed_quests
            &&& after.tracker.failed_quests == self.tracker.failed_quests
            &&& self.tracker.logged(after.tracker, quest_id, QuestStatus::Active, time)
        }
    }

    /// Accepts the quest `quest_id` at the time `time`. On success the quest
    /// leaves the offer and becomes active, and the message names its title.
    /// On failure nothing changes, and the message says why.
    pub fn accept_quest_at(&mut self, quest_id: &str, time: String) -> (r: Result<String, String>)
        requires
            old(self).wf(),
        ensures
            final(self).wf(),
            old(self).accepted(quest_id@, time, *final(self), r),
    {
        match self.available_quests.get(quest_id) {
            None => {
                return Err(String::from_str("Quest not found"));
            },
            Some(quest) => {
                if !quest.can_accept(&self.tracker.completed_quests) {
                    return Err(String::from_str("Prerequisites not met"));
                }
                if !self.tracker.would_accept(quest) {
                    return Err(String::from_str("Failed to accept quest"));
                }
            },
        }
        match self.available_quests.remove(quest_id) {
            Some(quest) => {
                let message = concat2("Accepted quest: ", quest.title.as_str());
                let _ = self.tracker.accept_quest_at(quest, time);
                Ok(message)
            },
            None => vstd::pervasive::unreached(),
        }
    }

    /// Accepts the quest `quest_id` now. The error says why it could not be
    /// accepted; on success the quest leaves the offer and becomes active.
    pub fn accept_quest(&mut self, quest_id: &str) -> (r: Result<String, String>)
        requires
            old(self).wf(),
        ensures
            final(self).wf(),
            r is Ok <==> old(self).acceptance(quest_id@) is Accepted,
            exists|time: String| #[trigger] old(self).accepted(quest_id@, time, *final(self), r),
    {
        let time = timestamp_now();
        let r = self.accept_quest_at(quest_id, time);
        assert(old(self).accepted(quest_id@, time, *self, r));
        r
    }

    /// What `show_quests` says: the active quests with their stage and
    /// objectives, then the quests on offer whose prerequisites are met.
    pub open spec fn shown(&self) -> Seq<char> {
        "Active Quests:\n"@ + active_text(self.tracker.active_quests.values())
            + "\nAvailable Quests:\n"@ + offer_text(
            self.available_quests.values(),
            self.tracker.completed_quests@,
        )
    }

    /// The quests in words: the active ones, then the ones on offer.
    pub fn show_quests(&self) -> (r: String)
        requires
            self.wf(),
        ensures
            r@ == self.shown(),
    {
        let mut result = String::from_str("Active Quests:\n");
        let n = self.tracker.active_quests.len();
        proof {
            self.tracker.active_quests.lemma_entries();
            self.available_quests.lemma_entries();
        }
        let ghost active = self.tracker.active_quests.values();
        let mut i: usize = 0;
        assert(result@ =~= "Active Quests:\n"@ + active_text(active.subrange(0, 0)));
        while i < n
            invariant
                i <= n,
                self.wf(),
                active == self.tracker.active_quests.values(),
                n == self.tracker.active_quests.keys().len(),
                n == active.len(),
                result@ == "Active Quests:\n"@ + active_text(active.subrange(0, i as int)),
            decreases n - i,
        {
            let quest = self.tracker.active_quests.value_at(i);
            let ghost before = result@;
            append_quest_line(&mut result, quest);
            match quest.get_current_stage() {
                Some(stage) => {
                    result.append("  Current Stage: ");
                    result.append(stage.title.as_str());
                    result.append("\n");
                    append_objectives(&mut result, &stage.objectives);
                },
                None => {},
            }
            proof {
                let now = active.subrange(0, i + 1);
                assert(now.drop_last() =~= active.subrange(0, i as int));
                assert(result@ =~= before + active_entry(*quest));
                assert(result@ =~= "Active Quests:\n"@ + active_text(now));
            }
            i = i + 1;
        }
        assert(active.subrange(0, n as int) =~= active);
        result.append("\nAvailable Quests:\n");
        let ghost head = result@;
        let ghost offer = self.available_quests.values();
        let ghost completed = self.tracker.completed_quests@;
        let m = self.available_quests.len();
        let mut j: usize = 0;
        assert(result@ =~= head + offer_text(offer.subrange(0, 0), completed));
        while j < m
            invariant
                j <= m,
                self.wf(),
                offer == self.available_quests.values(),
                completed == self.tracker.completed_quests@,
                m == self.available_quests.keys().len(),
                m == offer.len(),
                result@ == head + offer_text(offer.subrange(0, j as int), completed),
            decreases m - j,
        {
            let quest = self.available_quests.value_at(j);
            proof {
                let now = offer.subrange(0, j + 1);
                assert(now.drop_last() =~= offer.subrange(0, j as int));
            }
            if quest.can_accept(&self.tracker.completed_quests) {
                append_quest_line(&mut result, quest);
            }
            j = j + 1;
        }
        assert(offer.subrange(0, m as int) =~= offer);
        result
    }
}

/// Accepting a quest fails when a prerequisite is not completed; it succeeds,
/// and puts the quest among the active quests, when the quest is on offer,
/// available, neither active nor completed, and all its prerequisites are
/// completed.
pub proof fn law_accept_needs_prerequisites(system: QuestSystem, quest_id: Seq<char>)
    requires
        system.wf(),
        system.available_quests@.contains_key(quest_id),
    ensures
        !all_completed(
            system.available_quests@[quest_id].prerequisites@,
            system.tracker.completed_quests@,
        ) ==> system.acceptance(quest_id) is PrerequisitesNotMet,
        all_completed(
            system.available_quests@[quest_id].prerequisites@,
            system.tracker.completed_quests@,
        ) && system.available_quests@[quest_id].status == QuestStatus::Available
            && !system.tracker.active_quests@.contains_key(quest_id)
            && !system.tracker.completed_quests@.contains(quest_id) ==> system.acceptance(quest_id)
            is Accepted,
{
}

/// The kind of objective that a document calls `name`: a discovery unless
/// it names a kill, a collection, a room to reach or a talk.
pub open spec fn objective_kind(name: Seq<char>) -> ObjectiveType {
    if name == "kill_monster"@ {
        ObjectiveType::Kill
    } else if name == "collect_item"@ {
        ObjectiveType::Collect
    } else if name == "reach_room"@ {
        ObjectiveType::Explore
    } else if name == "talk_to_npc"@ {
        ObjectiveType::Talk
    } else {
        ObjectiveType::Discover
    }
}

/// Whether `o` is the objective that the document `v` describes at
/// position `index`: required once, not begun, named after its position,
/// with the number of its target as its target.
pub open spec fn reads_objective(v: serde_json::Value, index: int, o: QuestObjective) -> bool {
    &&& o.objective_id@ == "obj_"@ + decimal_nat(index as nat)
    &&& o.obj_type == objective_kind(text_field(v, "type"@, ""@))
    &&& o.description@ == text_field(v, "description"@, ""@)
    &&& o.target@ == decimal(int_field(v, "target_id"@, 0) as int)
    &&& o.required_count == 1
    &&& o.current_count == 0
    &&& !o.is_optional
    &&& o.completion_reward == 0
}

/// The identifier of the quest that the document `v` describes: its number
/// in decimal, 0 if it has none.
pub open spec fn quest_key(v: serde_json::Value) -> Seq<char> {
    decimal(narrowed(int_field(v, "id"@, 0)) as int)
}

/// Whether `q` is the quest that the document `v` describes: available,
/// of one stage that holds all its objectives, without rewards.
pub open spec fn reads_quest(v: serde_json::Value, q: Quest) -> bool {
    &&& q.wf()
    &&& q.quest_id@ == quest_key(v)
    &&& q.title@ == text_field(v, "title"@, ""@)
    &&& q.description@ == text_field(v, "description"@, ""@)
    &&& q.giver_npc@.len() == 0
    &&& q.quest_giver_level == 1
    &&& q.difficulty == QuestDifficulty::Moderate
    &&& q.stages@.len() == 1
    &&& q.stages@[0].stage_id@ == "main"@
    &&& q.stages@[0].stage_number == 1
    &&& q.stages@[0].title@ == "Main Quest"@
    &&& q.stages@[0].description@ == q.description@
    &&& q.stages@[0].stage_reward_xp == 0
    &&& match list_field(v, "objectives"@) {
        Some(elements) => q.stages@[0].objectives@.len() == elements.len() && forall|i: int|
            0 <= i < elements.len() ==> reads_objective(
                elements[i],
                i,
                #[trigger] q.stages@[0].objectives@[i],
            ),
        None => q.stages@[0].objectives@.len() == 0,
    }
    &&& q.rewards.experience_points == 0
    &&& q.rewards.gold == 0
    &&& q.rewards.items@.len() == 0
    &&& q.rewards.reputation_changes@ == Map::<Seq<char>, i32>::empty()
    &&& q.rewards.special_rewards@ == Map::<Seq<char>, serde_json::Value>::empty()
    &&& q.prerequisites@.len() == 0
    &&& q.blocking_quests@.len() == 0
    &&& q.time_limit_hours is None
    &&& q.status == QuestStatus::Available
    &&& q.acceptance_time is None
    &&& q.completion_time is None
    &&& q.current_stage_index == 0
    &&& !q.is_radiant
    &&& q.chain_id is None
}

/// The last position below `n` at which `quests` describes a quest with
/// the identifier `id`, or -1 if there is none.
pub open spec fn last_keyed(quests: Seq<serde_json::Value>, id: Seq<char>, n: int) -> int
    decreases n,
{
    if n <= 0 || n > quests.len() {
        -1
    } else if quest_key(quests[n - 1]) == id {
        n - 1
    } else {
        last_keyed(quests, id, n - 1)
    }
}

proof fn lemma_last_keyed(quests: Seq<serde_json::Value>, id: Seq<char>, n: int)
    requires
        0 <= n <= quests.len(),
    ensures
        -1 <= last_keyed(quests, id, n) < n,
        last_keyed(quests, id, n) >= 0 ==> quest_key(quests[last_keyed(quests, id, n)]) == id,
        last_keyed(quests, id, n) >= 0 <==> exists|k: int|
            0 <= k < n && #[trigger] quest_key(quests[k]) == id,
    decreases n,
{
    if n > 0 {
        lemma_last_keyed(quests, id, n - 1);
        if quest_key(quests[n - 1]) != id {
            if exists|k: int| 0 <= k < n && #[trigger] quest_key(quests[k]) == id {
                let k = choose|k: int| 0 <= k < n && #[trigger] quest_key(quests[k]) == id;
                assert(0 <= k < n - 1 && quest_key(quests[k]) == id);
            }
        }
    }
}

fn parse_objective(v: &serde_json::Value, index: usize) -> (o: QuestObjective)
    ensures
        reads_objective(*v, index as int, o),
{
    let kind = get_text(v, "type", "");
    let obj_type = if str_equal(kind.as_str(), "kill_monster") {
        ObjectiveType::Kill
    } else if str_equal(kind.as_str(), "collect_item") {
        ObjectiveType::Collect
    } else if str_equal(kind.as_str(), "reach_room") {
        ObjectiveType::Explore
    } else if str_equal(kind.as_str(), "talk_to_npc") {
        ObjectiveType::Talk
    } else {
        ObjectiveType::Discover
    };
    let target = render_int(get_int(v, "target_id", 0));
    let desc = get_text(v, "description", "");
    QuestObjective::new(
        concat2("obj_", render_nat(index as u64).as_str()),
        obj_type,
        desc,
        target,
        1,
    )
}

fn parse_quest_from_json(data: &serde_json::Value) -> (q: Quest)
    ensures
        reads_quest(*data, q),
{
    let id = narrow(get_int(data, "id", 0));
    let title = get_text(data, "title", "");
    let description = get_text(data, "description", "");
    let mut objectives: Vec<QuestObjective> = Vec::new();
    match get_list(data, "objectives") {
        Some(elements) => {
            let mut i: usize = 0;
            while i < elements.len()
                invariant
                    i <= elements@.len(),
                    objectives@.len() == i,
                    forall|k: int|
                        0 <= k < i ==> reads_objective(elements@[k], k, #[trigger] objectives@[k]),
                decreases elements@.len() - i,
            {
                objectives.push(parse_objective(&elements[i], i));
                i = i + 1;
            }
        },
        None => {},
    }
    let mut stages: Vec<QuestStage> = Vec::new();
    stages.push(
        QuestStage {
            stage_id: String::from_str("main"),
            stage_number: 1,
            title: String::from_str("Main Quest"),
            description: description.clone(),
            objectives,
            stage_reward_xp: 0,
        },
    );
    Quest {
        quest_id: render_int(id as i64),
        title,
        description,
        giver_npc: String::new(),
        quest_giver_level: 1,
        difficulty: QuestDifficulty::Moderate,
        stages,
        rewards: QuestReward::default(),
        prerequisites: Vec::new(),
        blocking_quests: Vec::new(),
        time_limit_hours: None,
        status: QuestStatus::Available,
        acceptance_time: None,
        completion_time: None,
        current_stage_index: 0,
        is_radiant: false,
        chain_id: None,
    }
}

/// What the player is told when a command lacks the quest it is about.
pub open spec fn usage_of(command: Seq<char>) -> Seq<char> {
    if command == "accept"@ {
        "Usage: accept <quest_id>. Use 'quests' to see available quests."@
    } else {
        "Usage: complete <quest_id>. Use 'quests' to see active quests."@
    }
}

impl QuestSystem {
    /// Whether `after` is the system `self` once the quests that the
    /// documents `quests` describe have been put on offer. A system that
    /// has quests on offer stays as it is. Into an empty offer goes one
    /// quest for each identifier: the last that the documents describe.
    pub open spec fn offers(&self, quests: Seq<serde_json::Value>, after: QuestSystem) -> bool {
        if self.available_quests.keys().len() > 0 {
            after == *self
        } else {
            &&& after.tracker == self.tracker
            &&& forall|id: Seq<char>| #[trigger]
                after.available_quests@.contains_key(id) <==> last_keyed(
                    quests,
                    id,
                    quests.len() as int,
                ) >= 0
            &&& forall|id: Seq<char>| #[trigger]
                after.available_quests@.contains_key(id) ==> reads_quest(
                    quests[last_keyed(quests, id, quests.len() as int)],
                    after.available_quests@[id],
                )
        }
    }

    /// Puts the quests of the game's adventure on offer, unless there are
    /// quests on offer already.
    pub fn load_quests_from_game(&mut self, game: &AdventureGame)
        requires
            old(self).wf(),
        ensures
            final(self).wf(),
            old(self).offers(game.quests@, *final(self)),
    {
        if !self.available_quests.is_empty() {
            return ;
        }
        let ghost quests = game.quests@;
        let mut i: usize = 0;
        while i < game.quests.len()
            invariant
                i <= quests.len(),
                quests == game.quests@,
                self.wf(),
                self.tracker == old(self).tracker,
                forall|id: Seq<char>| #[trigger]
                    self.available_quests@.contains_key(id) <==> last_keyed(quests, id, i as int)
                        >= 0,
                forall|id: Seq<char>| #[trigger]
                    self.available_quests@.contains_key(id) ==> reads_quest(
                        quests[last_keyed(quests, id, i as int)],
                        self.available_quests@[id],
                    ),
            decreases quests.len() - i,
        {
            let quest = parse_quest_from_json(&game.quests[i]);
            proof {
                assert forall|id: Seq<char>| true implies -1 <= #[trigger] last_keyed(
                    quests,
                    id,
                    i as int,
                ) < i by {
                    lemma_last_keyed(quests, id, i as int);
                }
            }
            let _ = self.available_quests.insert(quest.quest_id.clone(), quest);
            i = i + 1;
        }
    }

    /// How the quest system answers, once the quests of the game are on
    /// offer: it shows the quests, accepts the quest that its first
    /// argument names, and completes it. Other commands are not its
    /// business. The game itself is never changed.
    pub open spec fn replies(
        &self,
        command: Seq<char>,
        args: Seq<Seq<char>>,
        next: QuestSystem,
        reply: Option<Seq<char>>,
    ) -> bool {
        if command == "quests"@ {
            next == *self && reply == Some(self.shown())
        } else if command == "accept"@ {
            if args.len() == 0 {
                next == *self && reply == Some(usage_of(command))
            } else {
                exists|time: String, r: Result<String, String>| #[trigger]
                    self.accepted(args[0], time, next, r) && reply == Some(
                        match r {
                            Ok(message) => message@,
                            Err(why) => "Error: "@ + why@,
                        },
                    )
            }
        } else if command == "complete"@ {
            if args.len() == 0 {
                next == *self && reply == Some(usage_of(command))
            } else {
                exists|time: String, done: bool| #[trigger]
                    self.tracker.completed(args[0], time, next.tracker, done)
                        && next.available_quests == self.available_quests && reply == Some(
                        if done {
                            "Completed quest: "@ + args[0]
                        } else {
                            "Quest '"@ + args[0] + "' not found or not completable."@
                        },
                    )
            }
        } else {
            next == *self && reply is None
        }
    }
}

impl System for QuestSystem {
    open spec fn ready(&self) -> bool {
        self.wf()
    }

    open spec fn answers(
        &self,
        command: Seq<char>,
        args: Seq<Seq<char>>,
        before: AdventureGame,
        next: Self,
        after: AdventureGame,
        reply: Option<Seq<char>>,
    ) -> bool {
        after == before && exists|offering: QuestSystem| #[trigger]
            self.offers(before.quests@, offering) && offering.wf() && offering.replies(
                command,
                args,
                next,
                reply,
            )
    }

    fn on_command(&mut self, command: &str, args: &Vec<String>, game: &mut AdventureGame) -> (reply:
        Option<String>) {
        self.load_quests_from_game(game);
        let ghost offering = *self;
        let reply = if str_equal(command, "quests") {
            Some(self.show_quests())
        } else if str_equal(command, "accept") {
            if args.len() == 0 {
                Some(
                    String::from_str(
                        "Usage: accept <quest_id>. Use 'quests' to see available quests.",
                    ),
                )
            } else {
                let time = timestamp_now();
                let r = self.accept_quest_at(args[0].as_str(), time);
                assert(offering.accepted(args@[0]@, time, *self, r));
                match r {
                    Ok(msg) => Some(msg),
                    Err(err) => Some(concat2("Error: ", err.as_str())),
                }
            }
        } else if str_equal(command, "complete") {
            if args.len() == 0 {
                Some(
                    String::from_str(
                        "Usage: complete <quest_id>. Use 'quests' to see active quests.",
                    ),
                )
            } else {
                let time = timestamp_now();
                let done = self.tracker.complete_quest_at(args[0].as_str(), time);
                assert(offering.tracker.completed(args@[0]@, time, self.tracker, done));
                if done {
                    Some(concat2("Completed quest: ", args[0].as_str()))
                } else {
                    Some(concat3("Quest '", args[0].as_str(), "' not found or not completable."))
                }
            }
        } else {
            None
        };
        proof {
            assert(crate::text::texts(args@).len() == args@.len());
            if args@.len() > 0 {
                assert(crate::text::texts(args@)[0] == args@[0]@);
            }
            assert(offering.replies(
                command@,
                crate::text::texts(args@),
                *self,
                crate::chain::said(reply),
            ));
        }
        reply
    }
}

} // verus!
