//! Combatants, the two rosters an ability acts on, and target resolution.
use vstd::prelude::*;

verus! {

/// The fixed stat block of a combatant.
#[derive(Debug, Clone, Copy, PartialEq, Eq, Structural)]
pub struct CombatStats {
    pub strength: u32,
    pub vitality: u32,
    pub dexterity: u32,
    pub intelligence: u32,
}

/// One participant in a battle.
#[derive(Debug, Clone, Copy, PartialEq, Eq, Structural)]
pub struct Combatant {
    pub health: u32,
    pub mana: u32,
    pub stats: CombatStats,
}

/// Marks a combatant that fights on the player's side.
#[derive(Debug, Clone, Copy, PartialEq, Eq, Structural)]
pub struct IsAlly;

/// Marks a combatant that fights against the player.
#[derive(Debug, Clone, Copy, PartialEq, Eq, Structural)]
pub struct IsEnemy;

/// A rule that picks the combatant an ability acts on.
#[derive(Debug, Clone, Copy, PartialEq, Eq, Structural)]
pub enum AbilityTarget {
    /// The earliest combatant of the roster.
    First,
}

/// Why an ability found nothing to act on.
#[derive(Debug, Clone, Copy, PartialEq, Eq, Structural)]
pub enum TargetError {
    /// The roster the rule looks in is empty.
    NoValidTarget,
}

/// Health left after `amount` damage: `max(0, health - amount)`.
pub open spec fn damaged_health(health: u32, amount: u32) -> u32 {
    if health >= amount {
        (health - amount) as u32
    } else {
        0
    }
}

/// The combatant after taking `amount` damage; all else stays.
pub open spec fn damaged(c: Combatant, amount: u32) -> Combatant {
    Combatant { health: damaged_health(c.health, amount), mana: c.mana, stats: c.stats }
}

/// Where `target` points in `roster`, or `None` when nothing can be targeted.
pub open spec fn target_index(roster: Seq<Combatant>, target: AbilityTarget) -> Option<int> {
    if roster.len() == 0 {
        None
    } else {
        match target {
            AbilityTarget::First => Some(0),
        }
    }
}

/// The two rosters an ability acts on.
pub struct AbilityCtx {
    allies: Vec<Combatant>,
    enemies: Vec<Combatant>,
}

/// `after` and `r` are what dealing `amount` damage to the enemy that `target` picks
/// makes of `before`: the allies stay, the picked enemy loses health, and with no
/// enemy to pick nothing changes and the outcome is `NoValidTarget`.
pub open spec fn damage_outcome(
    before: AbilityCtx,
    after: AbilityCtx,
    target: AbilityTarget,
    amount: u32,
    r: Result<(), TargetError>,
) -> bool {
    &&& after.spec_allies() == before.spec_allies()
    &&& match target_index(before.spec_enemies(), target) {
        Some(i) => r is Ok && after.spec_enemies() == before.spec_enemies().update(
            i,
            damaged(before.spec_enemies()[i], amount),
        ),
        None => r == Err::<(), TargetError>(TargetError::NoValidTarget) && after.spec_enemies()
            == before.spec_enemies(),
    }
}

impl AbilityCtx {
    /// The allied roster.
    pub closed spec fn spec_allies(&self) -> Seq<Combatant> {
        self.allies@
    }

    /// The enemy roster.
    pub closed spec fn spec_enemies(&self) -> Seq<Combatant> {
        self.enemies@
    }

    /// A context over the given rosters.
    pub fn new(allies: Vec<Combatant>, enemies: Vec<Combatant>) -> (r: Self)
        ensures
            r.spec_allies() == allies@,
            r.spec_enemies() == enemies@,
    {
        AbilityCtx { allies, enemies }
    }

    /// The allied roster, in order.
    pub fn allies(&self) -> (r: &Vec<Combatant>)
        ensures
            r@ == self.spec_allies(),
    {
        &self.allies
    }

    /// The enemy roster, in order.
    pub fn enemies(&self) -> (r: &Vec<Combatant>)
        ensures
            r@ == self.spec_enemies(),
    {
        &self.enemies
    }

    /// The position in the enemy roster that `target` picks, or `NoValidTarget`
    /// when the roster is empty.
    pub fn find_target(&self, target: AbilityTarget) -> (r: Result<usize, TargetError>)
        ensures
            match target_index(self.spec_enemies(), target) {
                Some(i) => r == Ok::<usize, TargetError>(i as usize),
                None => r == Err::<usize, TargetError>(TargetError::NoValidTarget),
            },
    {
        if self.enemies.len() == 0 {
            return Err(TargetError::NoValidTarget);
        }
        match target {
            AbilityTarget::First => Ok(0),
        }
    }

    /// Deals `amount` damage to the enemy that `target` picks; health saturates at
    /// zero.
    pub fn damage_enemy(&mut self, target: AbilityTarget, amount: u32) -> (r: Result<
        (),
        TargetError,
    >)
        ensures
            damage_outcome(*old(self), *final(self), target, amount, r),
    {
        let i = match self.find_target(target) {
            Ok(i) => i,
            Err(e) => {
                return Err(e);
            },
        };
        let mut c = self.enemies[i];
        c.health = c.health.saturating_sub(amount);
        self.enemies.set(i, c);
        Ok(())
    }
}

/// A combat action: a fixed rule applied to the rosters.
pub trait CombatAbility {
    /// `after` and `r` are what the ability makes of `before`.
    spec fn performs(before: AbilityCtx, after: AbilityCtx, r: Result<(), TargetError>) -> bool;

    /// Applies the ability to `ctx`.
    fn execute(ctx: &mut AbilityCtx) -> (r: Result<(), TargetError>)
        ensures
            Self::performs(*old(ctx), *final(ctx), r),
    ;
}

/// Damage that a fireball deals.
pub const FIREBALL_DAMAGE: u32 = 30;

/// Hurls a fireball at the first enemy.
#[derive(Debug, Clone, Copy, PartialEq, Eq, Structural)]
pub struct Fireball;

impl CombatAbility for Fireball {
    open spec fn performs(before: AbilityCtx, after: AbilityCtx, r: Result<(), TargetError>) -> bool {
        damage_outcome(before, after, AbilityTarget::First, FIREBALL_DAMAGE, r)
    }

    fn execute(ctx: &mut AbilityCtx) -> (r: Result<(), TargetError>) {
        ctx.damage_enemy(AbilityTarget::First, FIREBALL_DAMAGE)
    }
}

/// Damage never drives health below zero: for every health `h` and damage `d` the
/// health left is `max(0, h - d)`.
pub proof fn lemma_damage_saturates(h: u32, d: u32)
    ensures
        damaged_health(h, d) as int == if h as int - d as int > 0 {
            h as int - d as int
        } else {
            0
        },
        damaged_health(h, d) >= 0,
{
}

/// The `First` rule picks position zero of a non-empty roster and nothing in an
/// empty one.
pub proof fn lemma_first_target(roster: Seq<Combatant>)
    ensures
        roster.len() > 0 ==> target_index(roster, AbilityTarget::First) == Some(0int),
        roster.len() == 0 ==> target_index(roster, AbilityTarget::First) is None,
{
}

} // verus!
