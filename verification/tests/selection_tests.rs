use gauge::error::GaugeError;
use gauge::state::{GaugeConfig, GaugeController, Vote, SCALE};

const WEEK: u64 = 7 * 86400;

fn percent(p: u64) -> u64 {
    p * (SCALE / 100)
}

fn config(min_percent: Option<u64>, max_selected: u32, cap: Option<u64>) -> GaugeConfig {
    GaugeConfig {
        title: String::from("gauge"),
        adapter: String::from("adapter"),
        epoch_size: WEEK,
        min_percent_selected: min_percent,
        max_options_selected: max_selected,
        max_available_percentage: cap,
    }
}

fn abc() -> Vec<String> {
    vec![String::from("A"), String::from("B"), String::from("C")]
}

/// Voter X (power 100) splits 0.7 / 0.3 over A and B; voter Y (power 50)
/// puts everything on C.
fn standard_votes(c: &mut GaugeController, id: u64) {
    let x = String::from("x");
    let y = String::from("y");
    c.place_votes(
        id,
        &x,
        Some(vec![
            Vote { option: String::from("A"), weight: percent(70) },
            Vote { option: String::from("B"), weight: percent(30) },
        ]),
    )
    .unwrap();
    c.place_vote(id, &y, Some(String::from("C"))).unwrap();
}

fn standard_powers() -> Vec<(String, u64)> {
    vec![(String::from("x"), 100), (String::from("y"), 50)]
}

// Support values come out in power atomics: one unit of power times a
// full weight is SCALE units of support.
fn units(power_share: u64) -> u128 {
    (power_share as u128) * (SCALE as u128)
}

#[test]
fn selection_orders_by_support_with_threshold() {
    let owner = String::from("owner");
    let mut c = GaugeController::new(owner.clone());
    let id = c
        .create_gauge(&owner, 0, config(Some(percent(5)), 10, None), abc())
        .unwrap();
    standard_votes(&mut c, id);
    let set = c.selected_set(id, &standard_powers()).unwrap();
    assert_eq!(
        set,
        vec![
            (String::from("A"), units(70)),
            (String::from("C"), units(50)),
            (String::from("B"), units(30)),
        ]
    );
}

#[test]
fn cap_drops_excess_without_redistribution() {
    let owner = String::from("owner");
    let mut c = GaugeController::new(owner.clone());
    let id = c
        .create_gauge(
            &owner,
            0,
            config(Some(percent(5)), 10, Some(percent(40))),
            abc(),
        )
        .unwrap();
    standard_votes(&mut c, id);
    let set = c.selected_set(id, &standard_powers()).unwrap();
    // total support is 150 power units; 40% of it is 60.  A is capped
    // there and the excess 10 is dropped: B and C keep their own support.
    assert_eq!(
        set,
        vec![
            (String::from("A"), units(60)),
            (String::from("C"), units(50)),
            (String::from("B"), units(30)),
        ]
    );
}

#[test]
fn second_execution_in_same_epoch_fails() {
    let owner = String::from("owner");
    let mut c = GaugeController::new(owner.clone());
    let id = c
        .create_gauge(&owner, 0, config(Some(percent(5)), 10, None), abc())
        .unwrap();
    standard_votes(&mut c, id);
    let powers = standard_powers();
    let set = c.execute(id, WEEK, &powers).unwrap();
    assert_eq!(set.len(), 3);
    assert_eq!(
        c.execute(id, WEEK + 60, &powers),
        Err(GaugeError::EpochNotReached)
    );
    // after a full further epoch the gauge is due again
    assert!(c.execute(id, 2 * WEEK, &powers).is_ok());
}

#[test]
fn execution_advances_schedule_by_exactly_one_epoch() {
    let owner = String::from("owner");
    let mut c = GaugeController::new(owner.clone());
    let id = c
        .create_gauge(&owner, 10, config(None, 10, None), abc())
        .unwrap();
    assert_eq!(c.gauge(id).unwrap().next_epoch, 10 + WEEK);
    standard_votes(&mut c, id);
    let powers = standard_powers();
    // executing late still advances by one epoch from the old schedule,
    // not from the execution time
    c.execute(id, 10 + 3 * WEEK, &powers).unwrap();
    assert_eq!(c.gauge(id).unwrap().next_epoch, 10 + 2 * WEEK);
}

#[test]
fn execution_records_last_executed_set() {
    let owner = String::from("owner");
    let mut c = GaugeController::new(owner.clone());
    let id = c
        .create_gauge(&owner, 0, config(Some(percent(5)), 10, None), abc())
        .unwrap();
    standard_votes(&mut c, id);
    let powers = standard_powers();
    assert_eq!(c.last_executed_set(id).unwrap(), &None);
    let set = c.execute(id, WEEK, &powers).unwrap();
    assert_eq!(c.last_executed_set(id).unwrap(), &Some(set));
}

#[test]
fn selected_set_is_deterministic() {
    let owner = String::from("owner");
    let mut c = GaugeController::new(owner.clone());
    let id = c
        .create_gauge(&owner, 0, config(Some(percent(5)), 10, None), abc())
        .unwrap();
    standard_votes(&mut c, id);
    let powers = standard_powers();
    let first = c.selected_set(id, &powers).unwrap();
    for _ in 0..5 {
        assert_eq!(c.selected_set(id, &powers).unwrap(), first);
    }
}

#[test]
fn raising_threshold_never_grows_selection() {
    let owner = String::from("owner");
    let mut c = GaugeController::new(owner.clone());
    let id = c
        .create_gauge(&owner, 0, config(None, 10, None), abc())
        .unwrap();
    standard_votes(&mut c, id);
    let powers = standard_powers();
    let mut last_len = c.selected_set(id, &powers).unwrap().len();
    for pct in [5u64, 25, 35, 50, 90] {
        c.update_gauge(&owner, id, None, Some(percent(pct)), None, None)
            .unwrap();
        let len = c.selected_set(id, &powers).unwrap().len();
        assert!(len <= last_len);
        last_len = len;
    }
    // at 35% only A (46.7%) survives; at 50% nothing does
    c.update_gauge(&owner, id, None, Some(percent(35)), None, None)
        .unwrap();
    assert_eq!(
        c.selected_set(id, &powers).unwrap(),
        vec![(String::from("A"), units(70))]
    );
    c.update_gauge(&owner, id, None, Some(percent(50)), None, None)
        .unwrap();
    assert_eq!(c.selected_set(id, &powers).unwrap(), vec![]);
}

#[test]
fn result_cap_truncates_selection() {
    let owner = String::from("owner");
    let mut c = GaugeController::new(owner.clone());
    let id = c
        .create_gauge(&owner, 0, config(None, 2, None), abc())
        .unwrap();
    standard_votes(&mut c, id);
    let set = c.selected_set(id, &standard_powers()).unwrap();
    assert_eq!(
        set,
        vec![
            (String::from("A"), units(70)),
            (String::from("C"), units(50)),
        ]
    );
}

#[test]
fn zero_grand_total_selects_nothing() {
    let owner = String::from("owner");
    let mut c = GaugeController::new(owner.clone());
    let id = c
        .create_gauge(&owner, 0, config(Some(percent(5)), 10, None), abc())
        .unwrap();
    // no votes at all
    assert_eq!(c.selected_set(id, &standard_powers()).unwrap(), vec![]);
    // votes from a voter whose current power is zero contribute nothing
    standard_votes(&mut c, id);
    let no_power: Vec<(String, u64)> = vec![];
    assert_eq!(c.selected_set(id, &no_power).unwrap(), vec![]);
}

#[test]
fn powerless_voter_allocation_persists_and_recovers() {
    let owner = String::from("owner");
    let mut c = GaugeController::new(owner.clone());
    let id = c
        .create_gauge(&owner, 0, config(None, 10, None), abc())
        .unwrap();
    standard_votes(&mut c, id);
    // voter y currently has no power: their row stays, contributes nothing
    let powers = vec![(String::from("x"), 100)];
    let set = c.selected_set(id, &powers).unwrap();
    assert_eq!(
        set,
        vec![
            (String::from("A"), units(70)),
            (String::from("B"), units(30)),
        ]
    );
    assert!(c.vote(id, &String::from("y")).unwrap().is_some());
    // power restored: the stored allocation takes effect again
    let set = c.selected_set(id, &standard_powers()).unwrap();
    assert_eq!(set[1], (String::from("C"), units(50)));
}

#[test]
fn tie_breaks_toward_earlier_registered_option() {
    let owner = String::from("owner");
    let mut c = GaugeController::new(owner.clone());
    let id = c
        .create_gauge(&owner, 0, config(None, 10, None), abc())
        .unwrap();
    let x = String::from("x");
    // equal support for C and B; B was registered earlier
    c.place_votes(
        id,
        &x,
        Some(vec![
            Vote { option: String::from("C"), weight: percent(50) },
            Vote { option: String::from("B"), weight: percent(50) },
        ]),
    )
    .unwrap();
    let set = c
        .selected_set(id, &vec![(String::from("x"), 10)])
        .unwrap();
    assert_eq!(
        set,
        vec![
            (String::from("B"), units(5)),
            (String::from("C"), units(5)),
        ]
    );
}

#[test]
fn overflowing_support_is_rejected() {
    let owner = String::from("owner");
    let mut c = GaugeController::new(owner.clone());
    let id = c
        .create_gauge(&owner, 0, config(None, 10, None), abc())
        .unwrap();
    let mut powers: Vec<(String, u64)> = Vec::new();
    for i in 0..20u32 {
        let voter = format!("whale{}", i);
        c.place_vote(id, &voter, Some(String::from("A"))).unwrap();
        powers.push((voter, u64::MAX));
    }
    assert_eq!(c.selected_set(id, &powers), Err(GaugeError::Overflow));
    assert_eq!(c.execute(id, WEEK, &powers), Err(GaugeError::Overflow));
}
