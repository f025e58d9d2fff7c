//! The entity and its view, combat, healing and equipment.

use crate::colors::{dark_red, light_green, light_yellow, orange, red, white, Color};
use crate::messages::Messages;
use crate::objects::ai::AI;
use crate::objects::equipment::Equipment;
use crate::objects::fighter::{DeathCallback, Fighter};
use crate::objects::game::Game;
use crate::objects::item::Item;
use crate::text::{decimal, push_decimal};
use crate::tiles::{grid, terrain_blocked, tile_at, Tile, TileMap};
use vstd::prelude::*;
use vstd::string::*;

verus! {

/// Anything that stands on a level or lies in the inventory: the player, a
/// monster, an item, the stairs. What an entity can do follows from which of
/// its facets are present.
#[derive(Debug, PartialEq, Eq)]
pub struct Object {
    pub x: i32,
    pub y: i32,
    pub char: char,
    pub color: Color,
    pub name: String,
    pub blocks: bool,
    pub alive: bool,
    pub always_visible: bool,
    pub level: i32,
    pub fighter: Option<Fighter>,
    pub ai: Option<AI>,
    pub item: Option<Item>,
    pub equipment: Option<Equipment>,
}

/// The mathematical content of an [`Object`].
pub struct ObjectView {
    pub x: i32,
    pub y: i32,
    pub char: char,
    pub color: Color,
    pub name: Seq<char>,
    pub blocks: bool,
    pub alive: bool,
    pub always_visible: bool,
    pub level: i32,
    pub fighter: Option<Fighter>,
    pub ai: Option<AI>,
    pub item: Option<Item>,
    pub equipment: Option<Equipment>,
}

impl View for Object {
    type V = ObjectView;

    open spec fn view(&self) -> ObjectView {
        ObjectView {
            x: self.x,
            y: self.y,
            char: self.char,
            color: self.color,
            name: self.name@,
            blocks: self.blocks,
            alive: self.alive,
            always_visible: self.always_visible,
            level: self.level,
            fighter: self.fighter,
            ai: self.ai,
            item: self.item,
            equipment: self.equipment,
        }
    }
}

/// The contents of a collection of entities, in order.
pub open spec fn world(objects: Seq<Object>) -> Seq<ObjectView> {
    Seq::new(objects.len(), |i: int| objects[i]@)
}

/// One of the statistics that equipment can raise.
#[derive(Clone, Copy, Debug, PartialEq, Eq, Structural)]
pub enum Stat {
    Power,
    Defense,
    MaxHp,
}

impl Fighter {
    /// The fighter's own value of a statistic.
    pub open spec fn base(self, stat: Stat) -> int {
        match stat {
            Stat::Power => self.base_power as int,
            Stat::Defense => self.base_defense as int,
            Stat::MaxHp => self.max_hp as int,
        }
    }
}

impl Equipment {
    /// What the equipment adds to a statistic when it is worn.
    pub open spec fn bonus(self, stat: Stat) -> int {
        match stat {
            Stat::Power => self.power_bonus as int,
            Stat::Defense => self.defense_bonus as int,
            Stat::MaxHp => self.hp_bonus as int,
        }
    }
}

impl ObjectView {
    /// A new entity: not alive, level 1, without facets.
    pub open spec fn fresh(
        x: i32,
        y: i32,
        char: char,
        name: Seq<char>,
        color: Color,
        blocks: bool,
    ) -> ObjectView {
        ObjectView {
            x,
            y,
            char,
            color,
            name,
            blocks,
            alive: false,
            always_visible: false,
            level: 1,
            fighter: None,
            ai: None,
            item: None,
            equipment: None,
        }
    }

    /// Whether the entity is a piece of equipment that is worn now.
    pub open spec fn is_equipped(self) -> bool {
        self.equipment matches Some(e) && e.equipped
    }

    /// What the entity adds to a statistic of the one who carries it.
    pub open spec fn worn_bonus(self, stat: Stat) -> int {
        match self.equipment {
            Some(e) => if e.equipped {
                e.bonus(stat)
            } else {
                0
            },
            None => 0,
        }
    }

    /// Whether the entity carries the inventory: it fights, and dies as the
    /// player does.
    pub open spec fn carries_inventory(self) -> bool {
        self.fighter matches Some(f) && f.on_death == DeathCallback::Player
    }

    /// The entity's own value of a statistic; 0 for one that does not fight.
    pub open spec fn base_stat(self, stat: Stat) -> int {
        match self.fighter {
            Some(f) => f.base(stat),
            None => 0,
        }
    }

    /// The value of a statistic that the entity fights with: its own, plus,
    /// for the one who carries the inventory, the bonuses of all equipment
    /// worn.
    pub open spec fn effective(self, stat: Stat, inventory: Seq<ObjectView>) -> int {
        self.base_stat(stat) + if self.carries_inventory() {
            total_bonus(inventory, stat)
        } else {
            0
        }
    }

    /// The square of the distance from the entity to `(x, y)`.
    pub open spec fn distance_squared(self, x: int, y: int) -> int {
        (x - self.x) * (x - self.x) + (y - self.y) * (y - self.y)
    }

    /// Whether `d` is the distance from the entity to `(x, y)`, rounded down
    /// to whole tiles.
    pub open spec fn distance_is(self, x: int, y: int, d: int) -> bool {
        is_floor_root(d, self.distance_squared(x, y))
    }

    /// Whether the entity is no further than `range` from `(x, y)`. Nothing
    /// is within a negative range.
    pub open spec fn within(self, x: int, y: int, range: int) -> bool {
        range >= 0 && self.distance_squared(x, y) <= range * range
    }

    /// The entity after `damage` was taken off its hit points, before any
    /// thought of death. Only a fighter is hurt, and only by positive damage.
    pub open spec fn hurt(self, damage: int) -> ObjectView {
        match self.fighter {
            Some(f) => if damage > 0 {
                ObjectView { fighter: Some(Fighter { hp: (f.hp - damage) as i32, ..f }), ..self }
            } else {
                self
            },
            None => self,
        }
    }

    /// Whether taking `damage` kills the entity: it was alive, and its hit
    /// points are at or below zero afterwards.
    pub open spec fn dies_from(self, damage: int) -> bool {
        self.alive && (self.hurt(damage).fighter matches Some(f) && f.hp <= 0)
    }

    /// What is left of the entity once the death policy `policy` has run on
    /// it: the player turns into a corpse to look at; a monster becomes
    /// remains that block nothing, fight no more and think no more.
    pub open spec fn slain(self, policy: DeathCallback) -> ObjectView {
        match policy {
            DeathCallback::Player => ObjectView { char: '%', color: dark_red(), ..self },
            DeathCallback::Monster => ObjectView {
                char: '%',
                color: dark_red(),
                blocks: false,
                fighter: None,
                ai: None,
                name: "remains of "@ + self.name,
                ..self
            },
        }
    }

    /// The line with which the death policy `policy` announces the entity's
    /// death.
    pub open spec fn obituary(self, policy: DeathCallback) -> (Seq<char>, Color) {
        match policy {
            DeathCallback::Player => ("You died!"@, red()),
            DeathCallback::Monster => (
                self.name + " is dead! You gain "@ + decimal(self.fighter->0.xp as int)
                    + " experience points."@,
                orange(),
            ),
        }
    }

    /// What is left of a fighter once its own death policy has run.
    pub open spec fn after_death(self) -> ObjectView {
        self.slain(self.fighter->0.on_death)
    }

    /// The line that announces a fighter's death.
    pub open spec fn death_line(self) -> (Seq<char>, Color) {
        self.obituary(self.fighter->0.on_death)
    }

    /// The entity after it took `damage`: hurt, and dead if that killed it.
    pub open spec fn after_damage(self, damage: int) -> ObjectView {
        if self.dies_from(damage) {
            (ObjectView { alive: false, ..self.hurt(damage) }).after_death()
        } else {
            self.hurt(damage)
        }
    }

    /// The experience that taking `damage` hands to whoever dealt it: the
    /// victim's, if it died of it.
    pub open spec fn reward(self, damage: int) -> Option<i32> {
        if self.dies_from(damage) {
            Some(self.fighter->0.xp)
        } else {
            None
        }
    }

    /// The lines that taking `damage` adds to the log.
    pub open spec fn damage_lines(self, damage: int) -> Seq<(Seq<char>, Color)> {
        if self.dies_from(damage) {
            seq![self.hurt(damage).death_line()]
        } else {
            Seq::empty()
        }
    }
}

impl ObjectView {
    /// The entity with `xp` more experience, if it fights.
    pub open spec fn with_xp_gain(self, xp: int) -> ObjectView {
        match self.fighter {
            Some(f) => ObjectView {
                fighter: Some(Fighter { xp: (f.xp + xp) as i32, ..f }),
                ..self
            },
            None => self,
        }
    }

    /// The damage that the entity's attack does to `target`: the attacker's
    /// power less the target's defense, both with equipment counted.
    pub open spec fn damage_to(self, target: ObjectView, inventory: Seq<ObjectView>) -> int {
        self.effective(Stat::Power, inventory) - target.effective(Stat::Defense, inventory)
    }

    /// Whether every number that the entity's attack on `target` computes
    /// fits in an `i32`, and the attacker can take the experience of a target
    /// that dies.
    pub open spec fn attack_fits(self, target: ObjectView, inventory: Seq<ObjectView>) -> bool {
        let damage = self.damage_to(target, inventory);
        &&& i32::MIN <= self.effective(Stat::Power, inventory) <= i32::MAX
        &&& i32::MIN <= target.effective(Stat::Defense, inventory) <= i32::MAX
        &&& i32::MIN <= damage <= i32::MAX
        &&& target.fighter matches Some(f) ==> (damage > 0 ==> {
            &&& f.hp - damage >= i32::MIN
            &&& target.dies_from(damage) ==> (self.fighter matches Some(own) && i32::MIN <= own.xp
                + f.xp <= i32::MAX)
        })
    }

    /// The target of an attack that does `damage`: as it was if the attack
    /// did nothing, else as after taking the damage.
    pub open spec fn attacked_for(self, damage: int) -> ObjectView {
        if damage > 0 {
            self.after_damage(damage)
        } else {
            self
        }
    }

    /// The attacker after its attack on `target`: richer by the target's
    /// experience if the attack killed it.
    pub open spec fn after_attacking(
        self,
        target: ObjectView,
        inventory: Seq<ObjectView>,
    ) -> ObjectView {
        let damage = self.damage_to(target, inventory);
        if damage > 0 {
            match target.reward(damage) {
                Some(xp) => self.with_xp_gain(xp as int),
                None => self,
            }
        } else {
            self
        }
    }

    /// The lines that the entity's attack on `target` adds to the log: what
    /// the attack did, and the target's death if it died of it.
    pub open spec fn attack_lines(
        self,
        target: ObjectView,
        inventory: Seq<ObjectView>,
    ) -> Seq<(Seq<char>, Color)> {
        let damage = self.damage_to(target, inventory);
        if damage > 0 {
            seq![hit_line(self.name, target.name, damage)] + target.damage_lines(damage)
        } else {
            seq![miss_line(self.name, target.name)]
        }
    }

    /// The entity after `amount` hit points were given back to it: no more
    /// than its fighter's maximum. One that does not fight is as it was.
    pub open spec fn healed(self, amount: int) -> ObjectView {
        match self.fighter {
            Some(f) => {
                let hp = if f.hp + amount > f.max_hp {
                    f.max_hp as int
                } else {
                    f.hp + amount
                };
                ObjectView { fighter: Some(Fighter { hp: hp as i32, ..f }), ..self }
            },
            None => self,
        }
    }
}

/// Death comes once: an entity that some damage has killed is dead, and no
/// further damage kills it again, hands out its experience again or adds
/// another line to the log. Further damage changes nothing about it but
/// the hit points of a fighter it may still be.
pub proof fn lemma_death_comes_once(o: ObjectView, first: int, second: int)
    requires
        o.dies_from(first),
    ensures
        !o.after_damage(first).alive,
        !o.after_damage(first).dies_from(second),
        o.after_damage(first).reward(second) is None,
        o.after_damage(first).damage_lines(second).len() == 0,
        !o.after_damage(first).after_damage(second).alive,
        o.after_damage(first).after_damage(second) == (ObjectView {
            fighter: o.after_damage(first).after_damage(second).fighter,
            ..o.after_damage(first)
        }),
{
    lemma_the_dead_stay_dead(o.after_damage(first), second);
}

/// The dead stay dead: whatever damage a dead entity takes, it is dead
/// afterwards, its death policy does not run, it hands out no experience and
/// nothing is added to the log. Its name, its glyph and whether it blocks
/// are as before; only the hit points of a fighter it may still be can
/// change, and one that is no fighter is as it was.
pub proof fn lemma_the_dead_stay_dead(o: ObjectView, damage: int)
    requires
        !o.alive,
    ensures
        !o.dies_from(damage),
        !o.after_damage(damage).alive,
        o.after_damage(damage) == o.hurt(damage),
        o.after_damage(damage) == (ObjectView { fighter: o.after_damage(damage).fighter, ..o }),
        o.after_damage(damage).name == o.name,
        o.after_damage(damage).char == o.char,
        o.after_damage(damage).blocks == o.blocks,
        o.fighter is None ==> o.after_damage(damage) == o,
        o.fighter matches Some(f) ==> o.after_damage(damage).fighter == Some(
            Fighter { hp: o.after_damage(damage).fighter->0.hp, ..f },
        ),
        o.reward(damage) is None,
        o.damage_lines(damage).len() == 0,
{
}

/// Damage never heals: after taking any damage a fighter has no more hit
/// points than before.
pub proof fn lemma_damage_never_heals(o: ObjectView, damage: int)
    requires
        o.fighter matches Some(f) && f.hp - damage >= i32::MIN,
    ensures
        o.hurt(damage).fighter matches Some(f) && f.hp <= o.fighter->0.hp,
        damage <= 0 ==> o.hurt(damage) == o,
{
}

impl ObjectView {
    /// Whether the entity can be put on or taken off: it is an item, and a
    /// piece of equipment.
    pub open spec fn wearable(self) -> bool {
        self.item is Some && self.equipment is Some
    }

    /// The entity with its equipment, if it has any, worn or not worn.
    pub open spec fn with_equipped(self, equipped: bool) -> ObjectView {
        match self.equipment {
            Some(e) => ObjectView { equipment: Some(Equipment { equipped, ..e }), ..self },
            None => self,
        }
    }

    /// The entity after an attempt to put it on: worn, if it can be.
    pub open spec fn after_equip(self) -> ObjectView {
        if self.wearable() {
            self.with_equipped(true)
        } else {
            self
        }
    }

    /// The entity after an attempt to take it off: not worn, if it can be
    /// worn at all.
    pub open spec fn after_dequip(self) -> ObjectView {
        if self.wearable() {
            self.with_equipped(false)
        } else {
            self
        }
    }

    /// The lines that an attempt to put the entity on adds to the log: a
    /// complaint if it is no item or no equipment, a report if it is put on
    /// now, nothing if it was worn already.
    pub open spec fn equip_lines(self) -> Seq<(Seq<char>, Color)> {
        if self.item is None {
            seq![(refusal_text("Can't equip "@, self.name, "Item"@), red())]
        } else {
            match self.equipment {
                None => seq![(refusal_text("Can't equip "@, self.name, "Equipment"@), red())],
                Some(e) => if e.equipped {
                    Seq::empty()
                } else {
                    seq![
                        (
                            "Equipped "@ + self.name + " on "@ + e.slot.spec_name() + "."@,
                            light_green(),
                        ),
                    ]
                },
            }
        }
    }

    /// The lines that an attempt to take the entity off adds to the log: a
    /// complaint if it is no item or no equipment, a report if it is taken
    /// off now, nothing if it was not worn.
    pub open spec fn dequip_lines(self) -> Seq<(Seq<char>, Color)> {
        if self.item is None {
            seq![(refusal_text("Can't dequip "@, self.name, "Item"@), red())]
        } else {
            match self.equipment {
                None => seq![(refusal_text("Can't dequip "@, self.name, "Equipment"@), red())],
                Some(e) => if e.equipped {
                    seq![
                        (
                            "Dequipped "@ + self.name + " from "@ + e.slot.spec_name() + "."@,
                            light_yellow(),
                        ),
                    ]
                } else {
                    Seq::empty()
                },
            }
        }
    }
}

/// The complaint that the entity called `name` cannot be handled as `verb`
/// says, because it is not a `kind`.
pub open spec fn refusal_text(verb: Seq<char>, name: Seq<char>, kind: Seq<char>) -> Seq<char> {
    verb + name + " because it's not an "@ + kind + "."@
}

/// The line that reports an attack that hurt.
pub open spec fn hit_line(attacker: Seq<char>, target: Seq<char>, damage: int) -> (
    Seq<char>,
    Color,
) {
    (attacker + " attacks "@ + target + " for "@ + decimal(damage) + " hit points."@, white())
}

/// The line that reports an attack that did nothing.
pub open spec fn miss_line(attacker: Seq<char>, target: Seq<char>) -> (Seq<char>, Color) {
    (attacker + " attacks "@ + target + " but it has no effect!"@, white())
}

impl Object {
    /// Creates an entity at `(x, y)`: not alive, level 1, without facets.
    pub fn new(x: i32, y: i32, char: char, name: &str, color: Color, blocks: bool) -> (o: Object)
        ensures
            o@ == ObjectView::fresh(x, y, char, name@, color, blocks),
    {
        Object {
            x,
            y,
            char,
            color,
            name: String::from_str(name),
            blocks,
            alive: false,
            always_visible: false,
            level: 1,
            fighter: None,
            ai: None,
            item: None,
            equipment: None,
        }
    }

    /// Moves the entity to `(x, y)`.
    pub fn set_pos(&mut self, x: i32, y: i32)
        ensures
            final(self)@ == (ObjectView { x, y, ..old(self)@ }),
    {
        self.x = x;
        self.y = y;
    }

    /// Where the entity stands.
    pub fn pos(&self) -> (p: (i32, i32))
        ensures
            p == (self@.x, self@.y),
    {
        (self.x, self.y)
    }

    /// Whether the entity carries the inventory.
    pub fn carries_inventory(&self) -> (b: bool)
        ensures
            b == self@.carries_inventory(),
    {
        match self.fighter {
            Some(fighter) => fighter.on_death == DeathCallback::Player,
            None => false,
        }
    }

    /// The square of the distance from the entity to `(x, y)`.
    pub fn distance_squared(&self, x: i32, y: i32) -> (d: u128)
        ensures
            d == self@.distance_squared(x as int, y as int),
    {
        let dx: i128 = x as i128 - self.x as i128;
        let dy: i128 = y as i128 - self.y as i128;
        assert(0 <= dx * dx <= 0x1_0000_0000_0000_0000) by (nonlinear_arith)
            requires
                -0x1_0000_0000 <= dx <= 0x1_0000_0000,
        ;
        assert(0 <= dy * dy <= 0x1_0000_0000_0000_0000) by (nonlinear_arith)
            requires
                -0x1_0000_0000 <= dy <= 0x1_0000_0000,
        ;
        (dx * dx + dy * dy) as u128
    }

    /// The distance from the entity to `(x, y)`, rounded down to whole tiles.
    pub fn distance(&self, x: i32, y: i32) -> (d: u64)
        ensures
            self@.distance_is(x as int, y as int, d as int),
    {
        let squared = self.distance_squared(x, y);
        assert(squared <= 0x2_0000_0000_0000_0000) by {
            let dx = x - self.x;
            let dy = y - self.y;
            assert(dx * dx <= 0x1_0000_0000_0000_0000) by (nonlinear_arith)
                requires
                    -0x1_0000_0000 <= dx <= 0x1_0000_0000,
            ;
            assert(dy * dy <= 0x1_0000_0000_0000_0000) by (nonlinear_arith)
                requires
                    -0x1_0000_0000 <= dy <= 0x1_0000_0000,
            ;
        }
        floor_sqrt(squared)
    }

    /// The distance from the entity to another, rounded down to whole tiles.
    pub fn distance_to(&self, other: &Object) -> (d: u64)
        ensures
            self@.distance_is(other@.x as int, other@.y as int, d as int),
    {
        self.distance(other.x, other.y)
    }

    /// The square of the distance from the entity to another.
    pub fn distance_squared_to(&self, other: &Object) -> (d: u128)
        ensures
            d == self@.distance_squared(other@.x as int, other@.y as int),
    {
        self.distance_squared(other.x, other.y)
    }

    /// Whether the entity is no further than `range` from `(x, y)`. Nothing
    /// is within a negative range.
    pub fn within(&self, x: i32, y: i32, range: i32) -> (b: bool)
        ensures
            b == self@.within(x as int, y as int, range as int),
    {
        if range < 0 {
            return false;
        }
        let r: u128 = range as u128;
        assert(r * r <= 0x1_0000_0000_0000_0000) by (nonlinear_arith)
            requires
                0 <= r <= 0x1_0000_0000,
        ;
        self.distance_squared(x, y) <= r * r
    }

    /// The value of a statistic that the entity fights with.
    pub fn effective_stat(&self, stat: Stat, game: &Game) -> (value: i32)
        requires
            i32::MIN <= self@.effective(stat, game@.inventory) <= i32::MAX,
        ensures
            value == self@.effective(stat, game@.inventory),
    {
        let base: i32 = match self.fighter {
            Some(fighter) => match stat {
                Stat::Power => fighter.base_power,
                Stat::Defense => fighter.base_defense,
                Stat::MaxHp => fighter.max_hp,
            },
            None => 0,
        };
        let bonus: i128 = if self.carries_inventory() {
            worn_bonus_total(&game.inventory, stat)
        } else {
            0
        };
        (base as i128 + bonus) as i32
    }

    /// The power the entity attacks with.
    pub fn effective_power(&self, game: &Game) -> (value: i32)
        requires
            i32::MIN <= self@.effective(Stat::Power, game@.inventory) <= i32::MAX,
        ensures
            value == self@.effective(Stat::Power, game@.inventory),
    {
        self.effective_stat(Stat::Power, game)
    }

    /// The defense the entity meets an attack with.
    pub fn effective_defense(&self, game: &Game) -> (value: i32)
        requires
            i32::MIN <= self@.effective(Stat::Defense, game@.inventory) <= i32::MAX,
        ensures
            value == self@.effective(Stat::Defense, game@.inventory),
    {
        self.effective_stat(Stat::Defense, game)
    }

    /// The entity's maximum hit points with the bonuses of worn equipment
    /// added. Healing does not count the bonuses: it stops at the fighter's
    /// own maximum.
    pub fn effective_max_hp(&self, game: &Game) -> (value: i32)
        requires
            i32::MIN <= self@.effective(Stat::MaxHp, game@.inventory) <= i32::MAX,
        ensures
            value == self@.effective(Stat::MaxHp, game@.inventory),
    {
        self.effective_stat(Stat::MaxHp, game)
    }

    /// Takes `damage` off the entity's hit points and lets it die if that
    /// brings a living entity to zero or below.
    ///
    /// Only a fighter is hurt, and only by positive damage. Death happens to
    /// the living only: the entity is marked dead, its death policy runs once,
    /// and its experience is returned for whoever dealt the blow.
    pub fn take_damage(&mut self, damage: i32, game: &mut Game) -> (xp: Option<i32>)
        requires
            old(self).fighter matches Some(f) ==> (damage > 0 ==> f.hp - damage >= i32::MIN),
        ensures
            final(self)@ == old(self)@.after_damage(damage as int),
            xp == old(self)@.reward(damage as int),
            final(game)@ == old(game)@.with_messages(old(self)@.damage_lines(damage as int)),
            !old(self)@.alive ==> {
                &&& xp is None
                &&& final(game)@ == old(game)@
                &&& !final(self)@.alive
                &&& final(self)@ == (ObjectView { fighter: final(self)@.fighter, ..old(self)@ })
            },
    {
        proof {
            if !self@.alive {
                lemma_the_dead_stay_dead(self@, damage as int);
                assert(game@.messages + self@.damage_lines(damage as int) =~= game@.messages);
            }
        }
        if damage > 0 {
            if let Some(fighter) = self.fighter {
                self.fighter = Some(Fighter { hp: fighter.hp - damage, ..fighter });
            }
        }
        if let Some(fighter) = self.fighter {
            if fighter.hp <= 0 && self.alive {
                self.alive = false;
                fighter.on_death.callback(self, game);
                assert(game@.messages =~= old(game)@.messages + old(self)@.damage_lines(
                    damage as int,
                ));
                return Some(fighter.xp);
            }
        }
        assert(game@.messages =~= old(game)@.messages + old(self)@.damage_lines(damage as int));
        None
    }

    /// Attacks `target`: the damage is the attacker's power less the target's
    /// defense. Damage above zero is taken by the target and reported; an
    /// attack that does none is reported as having no effect. The attacker
    /// gains the experience of a target that dies.
    pub fn attack(&mut self, target: &mut Object, game: &mut Game)
        requires
            old(self)@.attack_fits(old(target)@, old(game)@.inventory),
        ensures
            final(target)@ == old(target)@.attacked_for(
                old(self)@.damage_to(old(target)@, old(game)@.inventory),
            ),
            final(self)@ == old(self)@.after_attacking(old(target)@, old(game)@.inventory),
            final(game)@ == old(game)@.with_messages(
                old(self)@.attack_lines(old(target)@, old(game)@.inventory),
            ),
    {
        let ghost inventory = game@.inventory;
        let power = self.effective_power(game);
        let defense = target.effective_defense(game);
        let damage: i32 = power - defense;
        if damage > 0 {
            let mut line = String::from_str(self.name.as_str());
            line.append(" attacks ");
            line.append(target.name.as_str());
            line.append(" for ");
            push_decimal(&mut line, damage);
            line.append(" hit points.");
            game.messages.add(line, white());
            let ghost reported = game@;
            assert(reported.messages =~= old(game)@.messages + seq![
                hit_line(old(self)@.name, old(target)@.name, damage as int),
            ]);
            if let Some(xp) = target.take_damage(damage, game) {
                if let Some(fighter) = self.fighter {
                    self.fighter = Some(Fighter { xp: fighter.xp + xp, ..fighter });
                }
            }
            assert(game@.messages =~= old(game)@.messages + old(self)@.attack_lines(
                old(target)@,
                inventory,
            ));
        } else {
            let mut line = String::from_str(self.name.as_str());
            line.append(" attacks ");
            line.append(target.name.as_str());
            line.append(" but it has no effect!");
            game.messages.add(line, white());
            assert(game@.messages =~= old(game)@.messages + old(self)@.attack_lines(
                old(target)@,
                inventory,
            ));
        }
    }

    /// Gives the entity `amount` hit points back, up to its fighter's
    /// maximum.
    pub fn heal(&mut self, amount: i32)
        requires
            old(self).fighter matches Some(f) ==> f.hp + amount >= i32::MIN,
        ensures
            final(self)@ == old(self)@.healed(amount as int),
    {
        if let Some(fighter) = self.fighter {
            let raised: i64 = fighter.hp as i64 + amount as i64;
            let hp: i32 = if raised > fighter.max_hp as i64 {
                fighter.max_hp
            } else {
                raised as i32
            };
            self.fighter = Some(Fighter { hp, ..fighter });
        }
    }
}

impl Object {
    /// The complaint that the entity cannot be `verb`ed because it is not a
    /// `kind`.
    fn refusal(&self, verb: &str, kind: &str) -> (line: String)
        ensures
            line@ == refusal_text(verb@, self@.name, kind@),
    {
        let mut line = String::from_str(verb);
        line.append(self.name.as_str());
        line.append(" because it's not an ");
        line.append(kind);
        line.append(".");
        line
    }

    /// Puts the entity on, if it is an item and a piece of equipment, and
    /// reports it; complains in the log if it is not.
    pub fn equip(&mut self, messages: &mut Messages)
        ensures
            final(self)@ == old(self)@.after_equip(),
            final(messages)@ == old(messages)@ + old(self)@.equip_lines(),
    {
        if self.item.is_none() {
            let line = self.refusal("Can't equip ", "Item");
            messages.add(line, red());
            assert(messages@ =~= old(messages)@ + old(self)@.equip_lines());
            return ;
        }
        match self.equipment {
            Some(equipment) => {
                if !equipment.equipped {
                    self.equipment = Some(Equipment { equipped: true, ..equipment });
                    let mut line = String::from_str("Equipped ");
                    line.append(self.name.as_str());
                    line.append(" on ");
                    line.append(equipment.slot.name());
                    line.append(".");
                    messages.add(line, light_green());
                }
            },
            None => {
                let line = self.refusal("Can't equip ", "Equipment");
                messages.add(line, red());
            },
        }
        assert(messages@ =~= old(messages)@ + old(self)@.equip_lines());
    }

    /// Takes the entity off, if it is an item and a piece of equipment, and
    /// reports it; complains in the log if it is not.
    pub fn dequip(&mut self, messages: &mut Messages)
        ensures
            final(self)@ == old(self)@.after_dequip(),
            final(messages)@ == old(messages)@ + old(self)@.dequip_lines(),
    {
        if self.item.is_none() {
            let line = self.refusal("Can't dequip ", "Item");
            messages.add(line, red());
            assert(messages@ =~= old(messages)@ + old(self)@.dequip_lines());
            return ;
        }
        match self.equipment {
            Some(equipment) => {
                if equipment.equipped {
                    self.equipment = Some(Equipment { equipped: false, ..equipment });
                    let mut line = String::from_str("Dequipped ");
                    line.append(self.name.as_str());
                    line.append(" from ");
                    line.append(equipment.slot.name());
                    line.append(".");
                    messages.add(line, light_yellow());
                }
            },
            None => {
                let line = self.refusal("Can't dequip ", "Equipment");
                messages.add(line, red());
            },
        }
        assert(messages@ =~= old(messages)@ + old(self)@.dequip_lines());
    }
}

/// Adds up what the worn equipment among `inventory` adds to a statistic.
pub fn worn_bonus_total(inventory: &Vec<Object>, stat: Stat) -> (sum: i128)
    ensures
        sum == total_bonus(world(inventory@), stat),
        -inventory@.len() * 0x8000_0000 <= sum <= inventory@.len() * 0x8000_0000,
{
    let ghost items = world(inventory@);
    let mut sum: i128 = 0;
    let mut i: usize = 0;
    assert(items.take(0).len() == 0);
    while i < inventory.len()
        invariant
            i <= inventory@.len(),
            items == world(inventory@),
            sum == total_bonus(items.take(i as int), stat),
            -(i as int) * 0x8000_0000 <= sum <= (i as int) * 0x8000_0000,
        decreases inventory@.len() - i,
    {
        let bonus: i32 = match inventory[i].equipment {
            Some(equipment) => if equipment.equipped {
                match stat {
                    Stat::Power => equipment.power_bonus,
                    Stat::Defense => equipment.defense_bonus,
                    Stat::MaxHp => equipment.hp_bonus,
                }
            } else {
                0
            },
            None => 0,
        };
        proof {
            assert(items.take(i + 1).drop_last() =~= items.take(i as int));
            assert(items.take(i + 1).last() == items[i as int]);
            assert(bonus == items[i as int].worn_bonus(stat));
        }
        sum = sum + bonus as i128;
        i += 1;
    }
    assert(items.take(i as int) =~= items);
    sum
}

/// Whether `r` is the square root of `n`, rounded down.
pub open spec fn is_floor_root(r: int, n: int) -> bool {
    r >= 0 && r * r <= n < (r + 1) * (r + 1)
}

/// No number has two square roots.
pub proof fn lemma_floor_root_unique(r1: int, r2: int, n: int)
    requires
        is_floor_root(r1, n),
        is_floor_root(r2, n),
    ensures
        r1 == r2,
{
    if r1 < r2 {
        assert((r1 + 1) * (r1 + 1) <= r2 * r2) by (nonlinear_arith)
            requires
                0 <= r1 + 1 <= r2,
        ;
    } else if r2 < r1 {
        assert((r2 + 1) * (r2 + 1) <= r1 * r1) by (nonlinear_arith)
            requires
                0 <= r2 + 1 <= r1,
        ;
    }
}

/// The square root of `n`, rounded down.
pub fn floor_sqrt(n: u128) -> (r: u64)
    requires
        n <= 0x2_0000_0000_0000_0000,
    ensures
        is_floor_root(r as int, n as int),
{
    let mut lo: u128 = 0;
    let mut hi: u128 = 0x2_0000_0000;
    while hi - lo > 1
        invariant
            lo < hi <= 0x2_0000_0000,
            lo * lo <= n < hi * hi,
        decreases hi - lo,
    {
        let mid = lo + (hi - lo) / 2;
        assert(mid * mid <= 0x4_0000_0000_0000_0000) by (nonlinear_arith)
            requires
                0 <= mid <= 0x2_0000_0000,
        ;
        if mid * mid <= n {
            lo = mid;
        } else {
            hi = mid;
        }
    }
    lo as u64
}

/// Whether some entity that blocks movement stands on `(x, y)`.
pub open spec fn occupied(objects: Seq<ObjectView>, x: int, y: int) -> bool {
    exists|i: int| 0 <= i < objects.len() && #[trigger] stands_in_the_way(objects[i], x, y)
}

/// Whether the entity blocks movement onto `(x, y)`.
pub open spec fn stands_in_the_way(o: ObjectView, x: int, y: int) -> bool {
    o.blocks && o.x == x && o.y == y
}

/// Whether nothing can step onto `(x, y)`: terrain forbids it, or an entity
/// that blocks movement stands there.
pub open spec fn blocked(x: int, y: int, g: Seq<Seq<Tile>>, objects: Seq<ObjectView>) -> bool {
    terrain_blocked(g, x, y) || occupied(objects, x, y)
}

/// Whether nothing can step onto `(x, y)`: the tile is solid or outside the
/// level, or an entity that blocks movement stands there.
pub fn is_blocked(x: i32, y: i32, map: &TileMap, objects: &Vec<Object>) -> (b: bool)
    ensures
        b == blocked(x as int, y as int, grid(map@), world(objects@)),
{
    match tile_at(map, x, y) {
        None => {
            return true;
        },
        Some(tile) => {
            if tile.blocked {
                return true;
            }
        },
    }
    let mut i: usize = 0;
    while i < objects.len()
        invariant
            i <= objects.len(),
            forall|j: int|
                0 <= j < i ==> !stands_in_the_way(
                    #[trigger] world(objects@)[j],
                    x as int,
                    y as int,
                ),
        decreases objects.len() - i,
    {
        if objects[i].blocks && objects[i].x == x && objects[i].y == y {
            assert(stands_in_the_way(world(objects@)[i as int], x as int, y as int));
            return true;
        }
        i += 1;
    }
    false
}

/// The sum of what the worn equipment among `inventory` adds to a statistic.
pub open spec fn total_bonus(inventory: Seq<ObjectView>, stat: Stat) -> int
    decreases inventory.len(),
{
    if inventory.len() == 0 {
        0
    } else {
        total_bonus(inventory.drop_last(), stat) + inventory.last().worn_bonus(stat)
    }
}

} // verus!
