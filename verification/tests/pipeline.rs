use bevy_replicon_spawn::config::{Attribute, ConfigError, EventModifierArg};
use bevy_replicon_spawn::pipeline::{apply_all, arrange, Modifier, ModifierPipeline};

/// What the callbacks of these tests do to the world: they count their calls.
#[derive(Debug, Clone, Copy, PartialEq, Eq, Default)]
struct Calls {
    init_output: u32,
    init_metadata: u32,
    mutate: u32,
}

#[derive(Debug, Clone, Copy, PartialEq, Eq)]
struct Hit {
    amount: i64,
}

#[derive(Debug, Clone, Copy, PartialEq, Eq)]
struct Scratch {
    base: i64,
    steps: u32,
}

#[derive(Debug, Clone, Copy, PartialEq, Eq)]
struct Damage {
    amount: i64,
}

type Step = fn(Calls, Scratch, Damage) -> (Calls, Scratch, Damage);
type InitOutput = fn(Calls, &Hit) -> (Calls, Option<Damage>);
type InitMetadata = fn(Calls, &Hit) -> (Calls, Scratch);

fn counted(mut calls: Calls, mut scratch: Scratch) -> (Calls, Scratch) {
    calls.mutate += 1;
    scratch.steps += 1;
    (calls, scratch)
}

fn double(calls: Calls, scratch: Scratch, damage: Damage) -> (Calls, Scratch, Damage) {
    let (calls, scratch) = counted(calls, scratch);
    (calls, scratch, Damage { amount: damage.amount * 2 })
}

fn add_five(calls: Calls, scratch: Scratch, damage: Damage) -> (Calls, Scratch, Damage) {
    let (calls, scratch) = counted(calls, scratch);
    (calls, scratch, Damage { amount: damage.amount + 5 })
}

fn add_one(calls: Calls, scratch: Scratch, damage: Damage) -> (Calls, Scratch, Damage) {
    let (calls, scratch) = counted(calls, scratch);
    (calls, scratch, Damage { amount: damage.amount + 1 })
}

fn negate(calls: Calls, scratch: Scratch, damage: Damage) -> (Calls, Scratch, Damage) {
    let (calls, scratch) = counted(calls, scratch);
    (calls, scratch, Damage { amount: -damage.amount })
}

/// Adds the input's amount once more for every step that ran before.
fn add_base_per_step(calls: Calls, scratch: Scratch, damage: Damage) -> (Calls, Scratch, Damage) {
    let amount = damage.amount + scratch.base * scratch.steps as i64;
    let (calls, scratch) = counted(calls, scratch);
    (calls, scratch, Damage { amount })
}

fn accept_positive(mut calls: Calls, hit: &Hit) -> (Calls, Option<Damage>) {
    calls.init_output += 1;
    if hit.amount > 0 {
        (calls, Some(Damage { amount: hit.amount }))
    } else {
        (calls, None)
    }
}

fn scratch_for(mut calls: Calls, hit: &Hit) -> (Calls, Scratch) {
    calls.init_metadata += 1;
    (calls, Scratch { base: hit.amount, steps: 0 })
}

fn arg(name: &str, value: &'static str) -> EventModifierArg<&'static str> {
    EventModifierArg { name: name.to_string(), value }
}

fn declaration() -> Vec<Attribute<&'static str>> {
    vec![Attribute::List(vec![
        arg("component", "DamageModifier"),
        arg("input", "Hit"),
        arg("metadata", "Scratch"),
        arg("output", "Damage"),
        arg("priority", "i64"),
    ])]
}

fn pipeline() -> ModifierPipeline<&'static str, InitOutput, InitMetadata> {
    match ModifierPipeline::register(
        declaration(),
        accept_positive as InitOutput,
        scratch_for as InitMetadata,
    ) {
        Ok(pipeline) => pipeline,
        Err(error) => panic!("the declaration is complete: {:?}", error),
    }
}

fn modifier(priority: i64, mutate: Step) -> Modifier<Step> {
    Modifier { priority, mutate }
}

fn amounts(emitted: &[Damage]) -> Vec<i64> {
    emitted.iter().map(|damage| damage.amount).collect()
}

#[test]
fn doubling_then_adding_five_gives_twenty_five() {
    let snapshot = vec![modifier(1, double), modifier(2, add_five)];
    let (calls, emitted) = pipeline().tick(Calls::default(), &vec![Hit { amount: 10 }], &snapshot);
    assert_eq!(amounts(&emitted), vec![25]);
    assert_eq!(calls, Calls { init_output: 1, init_metadata: 1, mutate: 2 });
}

#[test]
fn reversed_attachment_still_gives_twenty_five() {
    let snapshot = vec![modifier(2, add_five), modifier(1, double)];
    let (_, emitted) = pipeline().tick(Calls::default(), &vec![Hit { amount: 10 }], &snapshot);
    assert_eq!(amounts(&emitted), vec![25]);
}

#[test]
fn distinct_priorities_give_one_output_for_every_attachment_order() {
    let steps: [(i64, Step); 3] = [(-4, add_one), (0, double), (9, negate)];
    let orders = [[0, 1, 2], [0, 2, 1], [1, 0, 2], [1, 2, 0], [2, 0, 1], [2, 1, 0]];
    for order in orders {
        let snapshot: Vec<Modifier<Step>> =
            order.iter().map(|&place| modifier(steps[place].0, steps[place].1)).collect();
        let (_, emitted) = pipeline().tick(Calls::default(), &vec![Hit { amount: 7 }], &snapshot);
        assert_eq!(amounts(&emitted), vec![-16], "attached in the order {:?}", order);
    }
}

#[test]
fn lower_priority_is_applied_first() {
    let snapshot = vec![modifier(5, double), modifier(-5, add_one)];
    let (_, emitted) = pipeline().tick(Calls::default(), &vec![Hit { amount: 3 }], &snapshot);
    assert_eq!(amounts(&emitted), vec![8]);
}

#[test]
fn equal_priorities_apply_in_discovery_order() {
    let doubled_first = vec![modifier(1, double), modifier(1, add_one)];
    let (_, emitted) = pipeline().tick(Calls::default(), &vec![Hit { amount: 10 }], &doubled_first);
    assert_eq!(amounts(&emitted), vec![21]);

    let added_first = vec![modifier(1, add_one), modifier(1, double)];
    let (_, emitted) = pipeline().tick(Calls::default(), &vec![Hit { amount: 10 }], &added_first);
    assert_eq!(amounts(&emitted), vec![22]);
}

#[test]
fn commuting_ties_give_the_same_output_in_either_order() {
    let one_way = vec![modifier(1, add_one), modifier(1, add_five)];
    let other_way = vec![modifier(1, add_five), modifier(1, add_one)];
    let (_, first) = pipeline().tick(Calls::default(), &vec![Hit { amount: 10 }], &one_way);
    let (_, second) = pipeline().tick(Calls::default(), &vec![Hit { amount: 10 }], &other_way);
    assert_eq!(amounts(&first), vec![16]);
    assert_eq!(amounts(&second), vec![16]);
}

#[test]
fn ties_stay_in_discovery_order_between_other_priorities() {
    let snapshot = vec![
        modifier(2, double),
        modifier(3, negate),
        modifier(2, add_one),
        modifier(1, add_five),
    ];
    // ((4 + 5) * 2 + 1) negated
    let (_, emitted) = pipeline().tick(Calls::default(), &vec![Hit { amount: 4 }], &snapshot);
    assert_eq!(amounts(&emitted), vec![-19]);
}

#[test]
fn declined_input_builds_no_metadata_and_calls_no_modifier() {
    let snapshot = vec![modifier(1, double), modifier(2, add_five)];
    let (calls, emitted) = pipeline().tick(Calls::default(), &vec![Hit { amount: 0 }], &snapshot);
    assert!(emitted.is_empty());
    assert_eq!(calls, Calls { init_output: 1, init_metadata: 0, mutate: 0 });
}

#[test]
fn declined_input_does_not_stop_the_inputs_behind_it() {
    let snapshot = vec![modifier(1, double)];
    let pending = vec![Hit { amount: 1 }, Hit { amount: -1 }, Hit { amount: 3 }];
    let (calls, emitted) = pipeline().tick(Calls::default(), &pending, &snapshot);
    assert_eq!(amounts(&emitted), vec![2, 6]);
    assert_eq!(calls, Calls { init_output: 3, init_metadata: 2, mutate: 2 });
}

#[test]
fn inputs_are_handled_in_the_order_they_were_queued() {
    let snapshot = vec![modifier(1, add_one)];
    let pending = vec![Hit { amount: 30 }, Hit { amount: 10 }, Hit { amount: 20 }];
    let (_, emitted) = pipeline().tick(Calls::default(), &pending, &snapshot);
    assert_eq!(amounts(&emitted), vec![31, 11, 21]);
}

#[test]
fn idle_tick_does_nothing() {
    let snapshot = vec![modifier(1, double), modifier(2, add_five)];
    let before = Calls { init_output: 4, init_metadata: 3, mutate: 2 };
    let (calls, emitted) = pipeline().tick(before, &Vec::new(), &snapshot);
    assert!(emitted.is_empty());
    assert_eq!(calls, before);
}

#[test]
fn handler_runs_only_with_pending_input() {
    assert!(!ModifierPipeline::<&str, InitOutput, InitMetadata>::run_condition(0));
    assert!(ModifierPipeline::<&str, InitOutput, InitMetadata>::run_condition(1));
    assert!(ModifierPipeline::<&str, InitOutput, InitMetadata>::run_condition(usize::MAX));
}

#[test]
fn accepted_input_without_modifiers_is_emitted_as_initialized() {
    let snapshot: Vec<Modifier<Step>> = Vec::new();
    let (calls, emitted) = pipeline().tick(Calls::default(), &vec![Hit { amount: 10 }], &snapshot);
    assert_eq!(amounts(&emitted), vec![10]);
    assert_eq!(calls, Calls { init_output: 1, init_metadata: 1, mutate: 0 });
}

#[test]
fn later_modifiers_see_the_metadata_that_earlier_ones_left() {
    let snapshot = vec![modifier(3, add_base_per_step), modifier(1, double), modifier(2, add_one)];
    // 10 doubled, plus one, plus the input's 10 for each of the two steps before
    let (_, emitted) = pipeline().tick(Calls::default(), &vec![Hit { amount: 10 }], &snapshot);
    assert_eq!(amounts(&emitted), vec![41]);
}

#[test]
fn metadata_is_built_anew_for_each_input() {
    let snapshot = vec![modifier(1, add_base_per_step), modifier(2, add_base_per_step)];
    let pending = vec![Hit { amount: 1 }, Hit { amount: 100 }];
    let (_, emitted) = pipeline().tick(Calls::default(), &pending, &snapshot);
    assert_eq!(amounts(&emitted), vec![2, 200]);
}

#[test]
fn process_handles_one_input_with_arranged_modifiers() {
    let snapshot = vec![modifier(2, add_five), modifier(1, double)];
    let steps = arrange(&snapshot);
    let (calls, emitted) = pipeline().process(Calls::default(), &Hit { amount: 10 }, &steps);
    assert_eq!(emitted, Some(Damage { amount: 25 }));
    assert_eq!(calls, Calls { init_output: 1, init_metadata: 1, mutate: 2 });

    let (calls, emitted) = pipeline().process(calls, &Hit { amount: -10 }, &steps);
    assert_eq!(emitted, None);
    assert_eq!(calls, Calls { init_output: 2, init_metadata: 1, mutate: 2 });
}

#[test]
fn arrange_sorts_by_priority_and_keeps_the_snapshot() {
    let snapshot = vec![
        modifier(7, double),
        modifier(i64::MIN, add_one),
        modifier(7, add_five),
        modifier(i64::MAX, negate),
        modifier(0, add_one),
    ];
    let steps = arrange(&snapshot);
    let priorities: Vec<i64> = steps.iter().map(|step| step.priority).collect();
    assert_eq!(priorities, vec![i64::MIN, 0, 7, 7, i64::MAX]);
    assert!(std::ptr::eq(steps[2], &snapshot[0]));
    assert!(std::ptr::eq(steps[3], &snapshot[2]));
    assert_eq!(snapshot.len(), 5);
}

#[test]
fn apply_all_applies_the_steps_as_given() {
    let first = modifier(9, add_one);
    let second = modifier(1, double);
    let steps = vec![&first, &second];
    let (calls, scratch, damage) = apply_all(
        &steps,
        Calls::default(),
        Scratch { base: 0, steps: 0 },
        Damage { amount: 4 },
    );
    assert_eq!(damage, Damage { amount: 10 });
    assert_eq!(scratch.steps, 2);
    assert_eq!(calls.mutate, 2);
}

#[test]
fn registration_keeps_the_declared_kinds() {
    let pipeline = pipeline();
    assert_eq!(pipeline.kinds.component, "DamageModifier");
    assert_eq!(pipeline.kinds.input, "Hit");
    assert_eq!(pipeline.kinds.metadata, "Scratch");
    assert_eq!(pipeline.kinds.output, "Damage");
    assert_eq!(pipeline.kinds.priority, "i64");
}

#[test]
fn registration_without_a_priority_kind_is_refused() {
    let attributes = vec![Attribute::List(vec![
        arg("component", "DamageModifier"),
        arg("input", "Hit"),
        arg("metadata", "Scratch"),
        arg("output", "Damage"),
    ])];
    let registered = ModifierPipeline::register(
        attributes,
        accept_positive as InitOutput,
        scratch_for as InitMetadata,
    );
    assert!(matches!(registered, Err(ConfigError::MissingAttribute)));
}

#[test]
fn registration_with_an_unknown_kind_is_refused() {
    let mut attributes = declaration();
    if let Attribute::List(args) = &mut attributes[0] {
        args.push(arg("spawner", "spawn"));
    }
    let registered = ModifierPipeline::register(
        attributes,
        accept_positive as InitOutput,
        scratch_for as InitMetadata,
    );
    match registered {
        Err(ConfigError::UnknownArgument(name)) => assert_eq!(name, "spawner"),
        _ => panic!("the argument `spawner` is unknown to a pipeline"),
    }
}
