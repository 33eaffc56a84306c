use std::collections::HashMap;

use event_modifiers::modifier::ModifierComponent;
use event_modifiers::pipeline::Pipeline;
use rand::{rngs::StdRng, RngCore, SeedableRng};

type Entity = u32;

struct Rng {
    rng: StdRng,
}

struct Armor {
    value: u32,
}

struct CriticalChance {
    value: u32,
}

struct Invulnerable {}

struct InvulnerabilityEvent {}

struct AttackEvent {
    attacker: Entity,
    target: Entity,
    damage: u32,
}

struct AttackEventContext {
    r_rng: Rng,
    q_armor: HashMap<Entity, Armor>,
    q_critical_chance: HashMap<Entity, CriticalChance>,
    q_invulnarable: HashMap<Entity, Invulnerable>,
    e_invulnerability: Vec<InvulnerabilityEvent>,
}

struct DamageEvent {
    attacker: Entity,
    target: Entity,
    critical: bool,
    damage: u32,
}

impl DamageEvent {
    fn init(context: AttackEventContext, event: &AttackEvent) -> (AttackEventContext, Option<Self>) {
        (
            context,
            Some(DamageEvent {
                attacker: event.attacker,
                target: event.target,
                critical: false,
                damage: event.damage,
            }),
        )
    }
}

struct Metadata {}

impl Metadata {
    fn init(context: AttackEventContext, _: &AttackEvent) -> (AttackEventContext, Self) {
        (context, Metadata {})
    }
}

#[derive(Clone, Copy, PartialEq, Eq, PartialOrd, Ord)]
enum Priority {
    Armor,
    Critical,
    Invulnerable,
}

type Modify = fn(AttackEventContext, Metadata, DamageEvent) -> (AttackEventContext, Metadata, DamageEvent);
type InitMetadata = fn(AttackEventContext, &AttackEvent) -> (AttackEventContext, Metadata);
type InitOutput = fn(AttackEventContext, &AttackEvent) -> (AttackEventContext, Option<DamageEvent>);
type Modifier = ModifierComponent<Priority, Modify>;

fn armor_modifier(
    context: AttackEventContext,
    metadata: Metadata,
    mut event: DamageEvent,
) -> (AttackEventContext, Metadata, DamageEvent) {
    if let Some(armor) = context.q_armor.get(&event.target) {
        event.damage = event.damage.saturating_sub(armor.value);
    }
    (context, metadata, event)
}

fn critical_modifier(
    mut context: AttackEventContext,
    metadata: Metadata,
    mut event: DamageEvent,
) -> (AttackEventContext, Metadata, DamageEvent) {
    if let Some(critical_chance) = context.q_critical_chance.get(&event.attacker) {
        if context.r_rng.rng.next_u32() % 100 < critical_chance.value {
            event.critical = true;
            event.damage *= 2;
        }
    }
    (context, metadata, event)
}

fn invulnerable_modifier(
    mut context: AttackEventContext,
    metadata: Metadata,
    mut event: DamageEvent,
) -> (AttackEventContext, Metadata, DamageEvent) {
    if let Some(_) = context.q_invulnarable.get(&event.target) {
        context.e_invulnerability.push(InvulnerabilityEvent {});
        event.damage = 0;
    }
    (context, metadata, event)
}

/// A world of two entities: attacker `0` and target `1`.
struct World {
    next: Entity,
    context: AttackEventContext,
    pipeline: Pipeline<Priority, Modify, InitMetadata, InitOutput>,
    events_in: Vec<AttackEvent>,
    events_out: Vec<DamageEvent>,
}

impl World {
    fn new(seed: u64) -> Self {
        World {
            next: 0,
            context: AttackEventContext {
                r_rng: Rng { rng: StdRng::seed_from_u64(seed) },
                q_armor: HashMap::new(),
                q_critical_chance: HashMap::new(),
                q_invulnarable: HashMap::new(),
                e_invulnerability: Vec::new(),
            },
            pipeline: Pipeline::new(Metadata::init as InitMetadata, DamageEvent::init as InitOutput),
            events_in: Vec::new(),
            events_out: Vec::new(),
        }
    }

    fn spawn(&mut self, armor: Armor, critical_chance: CriticalChance, invulnerable: Option<Invulnerable>) -> Entity {
        let id = self.next;
        self.next += 1;
        self.context.q_armor.insert(id, armor);
        self.context.q_critical_chance.insert(id, critical_chance);
        if let Some(invulnerable) = invulnerable {
            self.context.q_invulnarable.insert(id, invulnerable);
        }
        id
    }

    fn run_system(mut self) -> Self {
        let events = std::mem::take(&mut self.events_in);
        let (context, events_out) = self.pipeline.run_pass(self.context, events);
        self.context = context;
        self.events_out.extend(events_out);
        self
    }
}

#[test]
fn attack_event_test_armor() {
    let mut world = World::new(0);

    let attacker = world.spawn(Armor { value: 3 }, CriticalChance { value: 30 }, Some(Invulnerable {}));
    let target = world.spawn(Armor { value: 5 }, CriticalChance { value: 0 }, Some(Invulnerable {}));

    world.pipeline.register(Modifier { priority: Priority::Armor, modify: armor_modifier });

    world.events_in.push(AttackEvent { attacker, target, damage: 10 });

    let world = world.run_system();

    let events_out = &world.events_out;

    assert_eq!(events_out.len(), 1);
    assert_eq!(events_out[0].attacker, attacker);
    assert_eq!(events_out[0].target, target);
    assert!(!events_out[0].critical);
    assert_eq!(events_out[0].damage, 5);
}

#[test]
fn attack_event_test_critical() {
    let mut world = World::new(0);

    let attacker = world.spawn(Armor { value: 3 }, CriticalChance { value: 30 }, Some(Invulnerable {}));
    let target = world.spawn(Armor { value: 5 }, CriticalChance { value: 0 }, Some(Invulnerable {}));

    world.pipeline.register(Modifier { priority: Priority::Critical, modify: critical_modifier });

    world.events_in.push(AttackEvent { attacker, target, damage: 10 });

    let world = world.run_system();

    let events_out = &world.events_out;

    assert_eq!(events_out.len(), 1);
    assert_eq!(events_out[0].attacker, attacker);
    assert_eq!(events_out[0].target, target);
    assert!(events_out[0].critical);
    assert_eq!(events_out[0].damage, 20);
}

#[test]
fn attack_event_test_invulnerable() {
    let mut world = World::new(0);

    let attacker = world.spawn(Armor { value: 3 }, CriticalChance { value: 30 }, Some(Invulnerable {}));
    let target = world.spawn(Armor { value: 5 }, CriticalChance { value: 0 }, Some(Invulnerable {}));

    world.pipeline.register(Modifier { priority: Priority::Invulnerable, modify: invulnerable_modifier });

    world.events_in.push(AttackEvent { attacker, target, damage: 10 });

    let world = world.run_system();

    let events_out = &world.events_out;

    assert_eq!(events_out.len(), 1);
    assert_eq!(events_out[0].attacker, attacker);
    assert_eq!(events_out[0].target, target);
    assert!(!events_out[0].critical);
    assert_eq!(events_out[0].damage, 0);
}

#[test]
fn attack_event_test_all() {
    let mut world = World::new(0);

    let attacker = world.spawn(Armor { value: 3 }, CriticalChance { value: 30 }, Some(Invulnerable {}));
    let target = world.spawn(Armor { value: 5 }, CriticalChance { value: 0 }, None);

    world.pipeline.register(Modifier { priority: Priority::Armor, modify: armor_modifier });
    world.pipeline.register(Modifier { priority: Priority::Critical, modify: critical_modifier });
    world.pipeline.register(Modifier { priority: Priority::Invulnerable, modify: invulnerable_modifier });

    world.events_in.push(AttackEvent { attacker, target, damage: 12 });

    let world = world.run_system();

    let events_out = &world.events_out;

    assert_eq!(events_out.len(), 1);
    assert_eq!(events_out[0].attacker, attacker);
    assert_eq!(events_out[0].target, target);
    assert!(events_out[0].critical);
    assert_eq!(events_out[0].damage, 14);
}

#[test]
fn invulnerability_sends_exactly_one_secondary_event() {
    let mut world = World::new(0);

    let attacker = world.spawn(Armor { value: 3 }, CriticalChance { value: 30 }, Some(Invulnerable {}));
    let target = world.spawn(Armor { value: 5 }, CriticalChance { value: 0 }, Some(Invulnerable {}));

    world.pipeline.register(Modifier { priority: Priority::Invulnerable, modify: invulnerable_modifier });
    world.pipeline.register(Modifier { priority: Priority::Critical, modify: critical_modifier });
    world.pipeline.register(Modifier { priority: Priority::Armor, modify: armor_modifier });

    world.events_in.push(AttackEvent { attacker, target, damage: 10 });

    let world = world.run_system();

    assert_eq!(world.events_out.len(), 1);
    assert_eq!(world.events_out[0].damage, 0);
    assert!(world.events_out[0].critical);
    assert_eq!(world.context.e_invulnerability.len(), 1);
    assert!(world.events_in.is_empty());
}

#[test]
fn the_full_chain_gives_the_same_damage_in_every_registration_order() {
    let modifiers: [(Priority, Modify); 3] = [
        (Priority::Armor, armor_modifier),
        (Priority::Critical, critical_modifier),
        (Priority::Invulnerable, invulnerable_modifier),
    ];
    for order in [[0, 1, 2], [0, 2, 1], [1, 0, 2], [1, 2, 0], [2, 0, 1], [2, 1, 0]] {
        let mut world = World::new(0);

        let attacker = world.spawn(Armor { value: 3 }, CriticalChance { value: 30 }, Some(Invulnerable {}));
        let target = world.spawn(Armor { value: 5 }, CriticalChance { value: 0 }, None);

        for i in order {
            world.pipeline.register(Modifier { priority: modifiers[i].0, modify: modifiers[i].1 });
        }

        world.events_in.push(AttackEvent { attacker, target, damage: 12 });

        let world = world.run_system();

        assert_eq!(world.events_out.len(), 1);
        assert!(world.events_out[0].critical);
        assert_eq!(world.events_out[0].damage, 14);
        assert!(world.context.e_invulnerability.is_empty());
    }
}

#[test]
fn the_critical_roll_is_the_same_on_every_run() {
    let mut damages = Vec::new();
    for _ in 0..3 {
        let mut world = World::new(0);

        let attacker = world.spawn(Armor { value: 3 }, CriticalChance { value: 30 }, None);
        let target = world.spawn(Armor { value: 5 }, CriticalChance { value: 0 }, None);

        world.pipeline.register(Modifier { priority: Priority::Critical, modify: critical_modifier });

        world.events_in.push(AttackEvent { attacker, target, damage: 10 });

        let world = world.run_system();
        damages.push((world.events_out[0].damage, world.events_out[0].critical));
    }
    assert_eq!(damages, vec![(20, true), (20, true), (20, true)]);
}

#[test]
fn armor_never_takes_damage_below_zero() {
    let mut world = World::new(0);

    let attacker = world.spawn(Armor { value: 0 }, CriticalChance { value: 0 }, None);
    let target = world.spawn(Armor { value: 50 }, CriticalChance { value: 0 }, None);

    world.pipeline.register(Modifier { priority: Priority::Armor, modify: armor_modifier });

    world.events_in.push(AttackEvent { attacker, target, damage: 10 });

    let world = world.run_system();

    assert_eq!(world.events_out.len(), 1);
    assert_eq!(world.events_out[0].damage, 0);
}
