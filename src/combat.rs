use vstd::prelude::*;
use crate::components::{CombatStats, EntityId};

verus! {

/// What one melee intent comes to.
#[derive(Clone, Copy, Debug, PartialEq, Eq, Structural)]
pub enum MeleeOutcome {
    /// The attacker or its target is already down: nothing happens.
    NoAttack,
    /// The target's defense absorbs the whole blow.
    CannotHurt,
    /// The target takes this much damage.
    Hit(i32),
}

/// An attacker's intent to strike a target, with both sides' stats looked up.
#[derive(Clone, Copy, Debug, PartialEq, Eq, Structural)]
pub struct MeleeIntent {
    pub attacker: EntityId,
    pub attacker_stats: CombatStats,
    pub target: EntityId,
    pub target_stats: CombatStats,
}

/// The outcome of one intent, for the log and the damage queues.
#[derive(Clone, Copy, Debug, PartialEq, Eq, Structural)]
pub struct MeleeReport {
    pub attacker: EntityId,
    pub target: EntityId,
    pub outcome: MeleeOutcome,
}

/// The damage queued against one entity this turn.
pub struct SufferDamage {
    pub amount: Vec<i32>,
}

/// `power - defense`, or zero when that is negative.
pub open spec fn spec_melee_damage(power: int, defense: int) -> int {
    if power - defense > 0 {
        power - defense
    } else {
        0
    }
}

/// Nothing when either side is down; otherwise no harm or a hit, by the damage.
pub open spec fn spec_melee_outcome(attacker: CombatStats, target: CombatStats) -> MeleeOutcome {
    if attacker.hp <= 0 || target.hp <= 0 {
        MeleeOutcome::NoAttack
    } else if spec_melee_damage(attacker.power as int, target.defense as int) == 0 {
        MeleeOutcome::CannotHurt
    } else {
        MeleeOutcome::Hit(spec_melee_damage(attacker.power as int, target.defense as int) as i32)
    }
}

/// The intent's damage fits in an `i32`.
pub open spec fn damage_fits(i: MeleeIntent) -> bool {
    i.attacker_stats.power - i.target_stats.defense <= i32::MAX
}

/// The sum of the amounts.
pub open spec fn total(s: Seq<i32>) -> int
    decreases s.len(),
{
    if s.len() == 0 {
        0
    } else {
        total(s.drop_last()) + s.last()
    }
}

/// The damage a blow of `power` does through `defense`.
pub fn melee_damage(power: i32, defense: i32) -> (r: i32)
    requires
        power - defense <= i32::MAX,
    ensures
        r as int == spec_melee_damage(power as int, defense as int),
{
    let d: i64 = power as i64 - defense as i64;
    if d > 0 {
        d as i32
    } else {
        0
    }
}

/// Resolves one blow: nothing when either side is down, else the damage, which may
/// be none at all.
pub fn melee_outcome(attacker: &CombatStats, target: &CombatStats) -> (r: MeleeOutcome)
    requires
        attacker.power - target.defense <= i32::MAX,
    ensures
        r == spec_melee_outcome(*attacker, *target),
{
    if attacker.hp > 0 && target.hp > 0 {
        let damage = melee_damage(attacker.power, target.defense);
        if damage == 0 {
            MeleeOutcome::CannotHurt
        } else {
            MeleeOutcome::Hit(damage)
        }
    } else {
        MeleeOutcome::NoAttack
    }
}

/// The combat pass: resolves every intent, in order, into a report. The caller
/// queues the damage of each hit and then drops all intents.
pub fn resolve_melee(intents: &Vec<MeleeIntent>) -> (r: Vec<MeleeReport>)
    requires
        forall|k: int| 0 <= k < intents@.len() ==> damage_fits(#[trigger] intents@[k]),
    ensures
        r@.len() == intents@.len(),
        forall|k: int|
            0 <= k < intents@.len() ==> #[trigger] r@[k] == (MeleeReport {
                attacker: intents@[k].attacker,
                target: intents@[k].target,
                outcome: spec_melee_outcome(intents@[k].attacker_stats, intents@[k].target_stats),
            }),
{
    let mut r: Vec<MeleeReport> = Vec::new();
    let mut k: usize = 0;
    while k < intents.len()
        invariant
            k <= intents@.len(),
            forall|j: int| 0 <= j < intents@.len() ==> damage_fits(#[trigger] intents@[j]),
            r@.len() == k,
            forall|j: int|
                0 <= j < k ==> #[trigger] r@[j] == (MeleeReport {
                    attacker: intents@[j].attacker,
                    target: intents@[j].target,
                    outcome: spec_melee_outcome(intents@[j].attacker_stats, intents@[j].target_stats),
                }),
        decreases intents@.len() - k,
    {
        let intent = intents[k];
        assert(damage_fits(intents@[k as int]));
        let outcome = melee_outcome(&intent.attacker_stats, &intent.target_stats);
        r.push(MeleeReport { attacker: intent.attacker, target: intent.target, outcome });
        k = k + 1;
    }
    r
}

impl SufferDamage {
    /// A queue holding one amount.
    pub fn new(amount: i32) -> (r: SufferDamage)
        ensures
            r.amount@ == seq![amount],
    {
        let mut v: Vec<i32> = Vec::new();
        v.push(amount);
        SufferDamage { amount: v }
    }

    /// Queues one more amount behind those already there.
    pub fn new_damage(&mut self, amount: i32)
        ensures
            final(self).amount@ == old(self).amount@.push(amount),
    {
        self.amount.push(amount);
    }

    /// The sum of the queued amounts.
    pub fn total(&self) -> (r: i128)
        ensures
            r as int == total(self.amount@),
    {
        let mut sum: i128 = 0;
        let mut k: usize = 0;
        while k < self.amount.len()
            invariant
                k <= self.amount@.len(),
                sum == total(self.amount@.take(k as int)),
                -(k as int) * 0x8000_0000 <= sum <= (k as int) * 0x8000_0000,
            decreases self.amount@.len() - k,
        {
            proof {
                assert(self.amount@.take(k as int + 1).drop_last() =~= self.amount@.take(k as int));
                assert(self.amount@.take(0) =~= Seq::<i32>::empty());
                assert(k as int * 0x8000_0000 <= 0xFFFF_FFFF_FFFF_FFFF * 0x8000_0000) by (nonlinear_arith)
                    requires k <= usize::MAX, usize::MAX <= 0xFFFF_FFFF_FFFF_FFFF;
            }
            sum = sum + self.amount[k] as i128;
            k = k + 1;
        }
        proof {
            assert(self.amount@.take(self.amount@.len() as int) =~= self.amount@);
        }
        sum
    }
}

/// The damage pass on one entity: takes the sum of its queue off its health, which
/// may go below zero. The caller then removes the queue.
pub fn apply_damage(stats: &mut CombatStats, damage: &SufferDamage)
    requires
        i32::MIN <= old(stats).hp - total(damage.amount@) <= i32::MAX,
    ensures
        final(stats).hp == old(stats).hp - total(damage.amount@),
        final(stats).max_hp == old(stats).max_hp,
        final(stats).defense == old(stats).defense,
        final(stats).power == old(stats).power,
{
    let sum = damage.total();
    stats.hp = (stats.hp as i128 - sum) as i32;
}

/// The amounts an entity's queue holds, none when it has no queue.
pub open spec fn queued(queue: Option<SufferDamage>) -> Seq<i32> {
    match queue {
        Some(q) => q.amount@,
        None => Seq::empty(),
    }
}

/// Queues `amount` behind what the entity already has queued, creating the queue
/// when it has none.
pub fn queue_damage(queue: Option<SufferDamage>, amount: i32) -> (r: SufferDamage)
    ensures
        r.amount@ == queued(queue).push(amount),
{
    match queue {
        Some(mut q) => {
            q.new_damage(amount);
            q
        },
        None => SufferDamage::new(amount),
    }
}

/// The damage pass on one entity, queue included: the sum of the queue, if any, is
/// taken off health, and the queue is gone afterwards.
pub fn settle_damage(stats: &mut CombatStats, queue: &mut Option<SufferDamage>)
    requires
        i32::MIN <= old(stats).hp - total(queued(*old(queue))) <= i32::MAX,
    ensures
        final(stats).hp == old(stats).hp - total(queued(*old(queue))),
        final(stats).max_hp == old(stats).max_hp,
        final(stats).defense == old(stats).defense,
        final(stats).power == old(stats).power,
        *final(queue) is None,
{
    match queue.take() {
        Some(q) => apply_damage(stats, &q),
        None => {},
    }
}

/// The entity is down and is to be removed.
pub fn is_dead(stats: &CombatStats) -> (r: bool)
    ensures
        r == (stats.hp <= 0),
{
    stats.hp <= 0
}

/// The entities of `s` whose health is zero or below, in order.
pub open spec fn dead_in(s: Seq<(EntityId, CombatStats)>) -> Seq<EntityId>
    decreases s.len(),
{
    if s.len() == 0 {
        Seq::empty()
    } else if s.last().1.hp <= 0 {
        dead_in(s.drop_last()).push(s.last().0)
    } else {
        dead_in(s.drop_last())
    }
}

/// The sweep after a pipeline run: every entity whose health is zero or below.
pub fn dead_entities(all: &Vec<(EntityId, CombatStats)>) -> (r: Vec<EntityId>)
    ensures
        r@ == dead_in(all@),
{
    let mut r: Vec<EntityId> = Vec::new();
    let mut k: usize = 0;
    while k < all.len()
        invariant
            k <= all@.len(),
            r@ == dead_in(all@.take(k as int)),
        decreases all@.len() - k,
    {
        let (e, stats) = all[k];
        proof {
            assert(all@.take(k as int + 1).drop_last() =~= all@.take(k as int));
            assert(all@.take(0) =~= Seq::<(EntityId, CombatStats)>::empty());
        }
        if is_dead(&stats) {
            r.push(e);
        }
        k = k + 1;
    }
    proof {
        assert(all@.take(all@.len() as int) =~= all@);
    }
    r
}

/// The sweep picks an entity exactly when one of its entries has health zero or below.
pub proof fn lemma_dead_in_exactly(s: Seq<(EntityId, CombatStats)>, e: EntityId)
    ensures
        dead_in(s).contains(e) <==> exists|k: int| 0 <= k < s.len() && (#[trigger] s[k]).0 == e && s[k].1.hp <= 0,
    decreases s.len(),
{
    if s.len() > 0 {
        let t = s.drop_last();
        lemma_dead_in_exactly(t, e);
        if dead_in(s).contains(e) {
            if s.last().1.hp <= 0 && s.last().0 == e {
                assert(s[s.len() - 1].0 == e);
            } else {
                if s.last().1.hp <= 0 {
                    let j = choose|j: int| 0 <= j < dead_in(s).len() && dead_in(s)[j] == e;
                    assert(dead_in(t).push(s.last().0)[j] == e);
                    assert(j < dead_in(t).len());
                    assert(dead_in(t).contains(e));
                }
                let k = choose|k: int| 0 <= k < t.len() && (#[trigger] t[k]).0 == e && t[k].1.hp <= 0;
                assert(s[k] == t[k]);
            }
        }
        if exists|k: int| 0 <= k < s.len() && (#[trigger] s[k]).0 == e && s[k].1.hp <= 0 {
            let k = choose|k: int| 0 <= k < s.len() && (#[trigger] s[k]).0 == e && s[k].1.hp <= 0;
            if k == s.len() - 1 {
                assert(dead_in(s).last() == e);
                assert(dead_in(s)[dead_in(s).len() - 1] == e);
            } else {
                assert(t[k] == s[k]);
                let j = choose|j: int| 0 <= j < dead_in(t).len() && dead_in(t)[j] == e;
                if s.last().1.hp <= 0 {
                    assert(dead_in(s)[j] == e);
                }
            }
        }
    }
}

/// Combat arithmetic: a queue applied to health takes off exactly the sum of its
/// amounts, and a blow does `power - defense` when positive, else nothing.
pub proof fn lemma_damage_exact(hp: int, a: i32, b: i32, c: i32, power: int, defense: int)
    ensures
        hp - total(seq![a, b, c]) == hp - (a + b + c),
        spec_melee_damage(power, defense) == if power > defense { power - defense } else { 0 },
{
    let s0 = Seq::<i32>::empty();
    let s1 = s0.push(a);
    let s2 = s1.push(b);
    let s3 = s2.push(c);
    assert(s1.drop_last() =~= s0);
    assert(s2.drop_last() =~= s1);
    assert(s3.drop_last() =~= s2);
    assert(total(s0) == 0);
    assert(s1.last() == a);
    assert(total(s1) == a);
    assert(total(s2) == a + b);
    assert(s3 =~= seq![a, b, c]);
    assert(total(seq![a, b, c]) == a + b + c);
}

} // verus!
