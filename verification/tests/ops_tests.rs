use gauge::error::GaugeError;
use gauge::state::{GaugeConfig, GaugeController, Vote, SCALE};

const DAY: u64 = 86400;

fn pct(p: u64) -> u64 {
    p * (SCALE / 100)
}

fn base_config() -> GaugeConfig {
    GaugeConfig {
        title: String::from("emissions"),
        adapter: String::from("adapter"),
        epoch_size: DAY,
        min_percent_selected: None,
        max_options_selected: 10,
        max_available_percentage: None,
    }
}

fn built() -> (GaugeController, u64) {
    let owner = String::from("owner");
    let mut c = GaugeController::new(owner.clone());
    let id = c
        .create_gauge(
            &owner,
            0,
            base_config(),
            vec![String::from("alpha"), String::from("beta")],
        )
        .unwrap();
    (c, id)
}

#[test]
fn creation_is_owner_only() {
    let owner = String::from("owner");
    let mut c = GaugeController::new(owner);
    let intruder = String::from("intruder");
    assert_eq!(
        c.create_gauge(&intruder, 0, base_config(), vec![]),
        Err(GaugeError::Unauthorized)
    );
    assert_eq!(c.list_gauges(None, None).len(), 0);
}

#[test]
fn creation_seeds_options_deduplicated() {
    let owner = String::from("owner");
    let mut c = GaugeController::new(owner.clone());
    let id = c
        .create_gauge(
            &owner,
            0,
            base_config(),
            vec![
                String::from("a"),
                String::from("b"),
                String::from("a"),
                String::from("c"),
                String::from("b"),
            ],
        )
        .unwrap();
    let powers: Vec<(String, u64)> = vec![];
    let listed = c.list_options(id, &powers, None, None).unwrap();
    let names: Vec<String> = listed.into_iter().map(|p| p.0).collect();
    assert_eq!(
        names,
        vec![String::from("a"), String::from("b"), String::from("c")]
    );
}

#[test]
fn unknown_gauge_is_reported() {
    let (mut c, id) = built();
    let powers: Vec<(String, u64)> = vec![];
    let voter = String::from("v");
    assert_eq!(
        c.add_option(id + 1, String::from("x")),
        Err(GaugeError::GaugeNotFound)
    );
    assert_eq!(
        c.place_vote(id + 1, &voter, None),
        Err(GaugeError::GaugeNotFound)
    );
    assert_eq!(c.selected_set(id + 1, &powers), Err(GaugeError::GaugeNotFound));
    assert_eq!(c.execute(id + 1, DAY, &powers), Err(GaugeError::GaugeNotFound));
    assert!(c.gauge(id + 1).is_err());
}

#[test]
fn duplicate_option_is_rejected() {
    let (mut c, id) = built();
    assert_eq!(c.add_option(id, String::from("gamma")), Ok(()));
    assert_eq!(
        c.add_option(id, String::from("gamma")),
        Err(GaugeError::DuplicateOption)
    );
    assert_eq!(
        c.add_option(id, String::from("alpha")),
        Err(GaugeError::DuplicateOption)
    );
}

#[test]
fn vote_validation_rejects_bad_submissions() {
    let (mut c, id) = built();
    let v = String::from("v");
    // zero weight
    assert_eq!(
        c.place_votes(
            id,
            &v,
            Some(vec![Vote { option: String::from("alpha"), weight: 0 }])
        ),
        Err(GaugeError::InvalidVoteWeight)
    );
    // duplicate option
    assert_eq!(
        c.place_votes(
            id,
            &v,
            Some(vec![
                Vote { option: String::from("alpha"), weight: pct(10) },
                Vote { option: String::from("alpha"), weight: pct(10) },
            ])
        ),
        Err(GaugeError::InvalidVoteWeight)
    );
    // weights above one whole
    assert_eq!(
        c.place_votes(
            id,
            &v,
            Some(vec![
                Vote { option: String::from("alpha"), weight: pct(60) },
                Vote { option: String::from("beta"), weight: pct(60) },
            ])
        ),
        Err(GaugeError::InvalidVoteWeight)
    );
    // unknown option
    assert_eq!(
        c.place_votes(
            id,
            &v,
            Some(vec![Vote { option: String::from("nope"), weight: pct(10) }])
        ),
        Err(GaugeError::OptionNotFound)
    );
    assert!(c.vote(id, &v).unwrap().is_none());
}

#[test]
fn single_vote_for_unknown_option_is_rejected() {
    let (mut c, id) = built();
    let v = String::from("v");
    assert_eq!(
        c.place_vote(id, &v, Some(String::from("nope"))),
        Err(GaugeError::OptionNotFound)
    );
    assert!(c.vote(id, &v).unwrap().is_none());
}

#[test]
fn freshly_added_option_can_be_voted_for() {
    let (mut c, id) = built();
    let v = String::from("v");
    c.add_option(id, String::from("gamma")).unwrap();
    c.place_vote(id, &v, Some(String::from("gamma"))).unwrap();
    let powers = vec![(String::from("v"), 7)];
    assert_eq!(
        c.selected_set(id, &powers).unwrap(),
        vec![(String::from("gamma"), 7 * SCALE as u128)]
    );
}

#[test]
fn rejected_submission_leaves_prior_allocation_untouched() {
    let (mut c, id) = built();
    let v = String::from("v");
    c.place_vote(id, &v, Some(String::from("alpha"))).unwrap();
    assert_eq!(
        c.place_votes(
            id,
            &v,
            Some(vec![
                Vote { option: String::from("alpha"), weight: pct(80) },
                Vote { option: String::from("beta"), weight: pct(80) },
            ])
        ),
        Err(GaugeError::InvalidVoteWeight)
    );
    let stored = c.vote(id, &v).unwrap().unwrap();
    assert_eq!(stored.votes.len(), 1);
    assert_eq!(stored.votes[0].option, String::from("alpha"));
    assert_eq!(stored.votes[0].weight, SCALE);
}

#[test]
fn replacement_is_wholesale() {
    let (mut c, id) = built();
    let v = String::from("v");
    let powers = vec![(String::from("v"), 10)];
    c.place_vote(id, &v, Some(String::from("alpha"))).unwrap();
    assert_eq!(
        c.selected_set(id, &powers).unwrap(),
        vec![(String::from("alpha"), 10 * SCALE as u128)]
    );
    // the new allocation no longer names alpha: alpha stops contributing
    c.place_votes(
        id,
        &v,
        Some(vec![Vote { option: String::from("beta"), weight: pct(40) }]),
    )
    .unwrap();
    assert_eq!(
        c.selected_set(id, &powers).unwrap(),
        vec![(String::from("beta"), 4 * SCALE as u128)]
    );
    let stored = c.vote(id, &v).unwrap().unwrap();
    assert_eq!(stored.votes.len(), 1);
    assert_eq!(stored.votes[0].option, String::from("beta"));
}

#[test]
fn clearing_removes_the_row() {
    let (mut c, id) = built();
    let v = String::from("v");
    c.place_vote(id, &v, Some(String::from("alpha"))).unwrap();
    assert!(c.vote(id, &v).unwrap().is_some());
    c.place_vote(id, &v, None).unwrap();
    assert!(c.vote(id, &v).unwrap().is_none());
    // an empty submission clears as well
    c.place_vote(id, &v, Some(String::from("beta"))).unwrap();
    c.place_votes(id, &v, Some(vec![])).unwrap();
    assert!(c.vote(id, &v).unwrap().is_none());
    assert_eq!(c.list_votes(id, None, None).unwrap().len(), 0);
}

#[test]
fn stopped_gauge_rejects_mutation_but_answers_queries() {
    let (mut c, id) = built();
    let owner = String::from("owner");
    let v = String::from("v");
    let powers = vec![(String::from("v"), 10)];
    c.place_vote(id, &v, Some(String::from("alpha"))).unwrap();
    let set_before = c.execute(id, DAY, &powers).unwrap();
    c.stop_gauge(&owner, id).unwrap();
    assert_eq!(
        c.add_option(id, String::from("late")),
        Err(GaugeError::GaugeStopped)
    );
    assert_eq!(
        c.place_vote(id, &v, Some(String::from("beta"))),
        Err(GaugeError::GaugeStopped)
    );
    assert_eq!(
        c.update_gauge(&owner, id, Some(2 * DAY), None, None, None),
        Err(GaugeError::GaugeStopped)
    );
    assert_eq!(c.execute(id, 10 * DAY, &powers), Err(GaugeError::GaugeStopped));
    assert_eq!(
        c.stop_gauge(&owner, id),
        Err(GaugeError::AlreadyStopped)
    );
    // queries still work and the last executed set is retained
    assert!(c.gauge(id).unwrap().is_stopped);
    assert_eq!(c.last_executed_set(id).unwrap(), &Some(set_before));
    assert!(c.selected_set(id, &powers).is_ok());
    assert!(c.vote(id, &v).unwrap().is_some());
}

#[test]
fn update_is_owner_only_and_partial() {
    let (mut c, id) = built();
    let owner = String::from("owner");
    let other = String::from("other");
    assert_eq!(
        c.update_gauge(&other, id, Some(2 * DAY), None, None, None),
        Err(GaugeError::Unauthorized)
    );
    c.update_gauge(&owner, id, None, Some(pct(7)), Some(3), None)
        .unwrap();
    let g = c.gauge(id).unwrap();
    assert_eq!(g.epoch_size, DAY);
    assert_eq!(g.min_percent_selected, Some(pct(7)));
    assert_eq!(g.max_options_selected, 3);
    assert_eq!(g.max_available_percentage, None);
    // a zero clears an optional tunable; the schedule is never reset
    let next_before = g.next_epoch;
    c.update_gauge(&owner, id, Some(2 * DAY), Some(0), None, Some(pct(40)))
        .unwrap();
    let g = c.gauge(id).unwrap();
    assert_eq!(g.epoch_size, 2 * DAY);
    assert_eq!(g.min_percent_selected, None);
    assert_eq!(g.max_available_percentage, Some(pct(40)));
    assert_eq!(g.next_epoch, next_before);
}

#[test]
fn stop_is_owner_only() {
    let (mut c, id) = built();
    let other = String::from("other");
    assert_eq!(c.stop_gauge(&other, id), Err(GaugeError::Unauthorized));
    assert!(!c.gauge(id).unwrap().is_stopped);
}

#[test]
fn list_votes_orders_by_voter_identity() {
    let (mut c, id) = built();
    for name in ["mallory", "alice", "zoe", "bob"] {
        let v = String::from(name);
        c.place_vote(id, &v, Some(String::from("alpha"))).unwrap();
    }
    let rows = c.list_votes(id, None, None).unwrap();
    let names: Vec<String> = rows.iter().map(|r| r.voter.clone()).collect();
    assert_eq!(
        names,
        vec![
            String::from("alice"),
            String::from("bob"),
            String::from("mallory"),
            String::from("zoe"),
        ]
    );
    // resuming strictly after a voter
    let bob = String::from("bob");
    let rows = c.list_votes(id, Some(&bob), None).unwrap();
    let names: Vec<String> = rows.iter().map(|r| r.voter.clone()).collect();
    assert_eq!(names, vec![String::from("mallory"), String::from("zoe")]);
    // page size limits the answer
    let rows = c.list_votes(id, None, Some(2)).unwrap();
    assert_eq!(rows.len(), 2);
    assert_eq!(rows[0].voter, String::from("alice"));
}

#[test]
fn list_options_reports_current_support_and_paginates() {
    let (mut c, id) = built();
    let v = String::from("v");
    c.place_votes(
        id,
        &v,
        Some(vec![Vote { option: String::from("beta"), weight: pct(50) }]),
    )
    .unwrap();
    let powers = vec![(String::from("v"), 10)];
    let listed = c.list_options(id, &powers, None, None).unwrap();
    assert_eq!(
        listed,
        vec![
            (String::from("alpha"), 0),
            (String::from("beta"), 5 * SCALE as u128),
        ]
    );
    let alpha = String::from("alpha");
    let listed = c.list_options(id, &powers, Some(&alpha), None).unwrap();
    assert_eq!(listed.len(), 1);
    assert_eq!(listed[0].0, String::from("beta"));
    let nope = String::from("nope");
    assert_eq!(
        c.list_options(id, &powers, Some(&nope), None),
        Err(GaugeError::OptionNotFound)
    );
}

#[test]
fn list_gauges_paginates_by_id() {
    let owner = String::from("owner");
    let mut c = GaugeController::new(owner.clone());
    for _ in 0..5 {
        c.create_gauge(&owner, 0, base_config(), vec![]).unwrap();
    }
    let all = c.list_gauges(None, None);
    assert_eq!(all.len(), 5);
    assert_eq!(all[0].0, 0);
    let page = c.list_gauges(Some(1), Some(2));
    assert_eq!(page.len(), 2);
    assert_eq!(page[0].0, 2);
    assert_eq!(page[1].0, 3);
    assert_eq!(c.list_gauges(Some(4), None).len(), 0);
}

#[test]
fn migration_overrides_named_schedules_only() {
    let owner = String::from("owner");
    let mut c = GaugeController::new(owner.clone());
    let a = c.create_gauge(&owner, 0, base_config(), vec![]).unwrap();
    let b = c.create_gauge(&owner, 0, base_config(), vec![]).unwrap();
    c.migrate(Some(vec![(a, 123456)])).unwrap();
    assert_eq!(c.gauge(a).unwrap().next_epoch, 123456);
    assert_eq!(c.gauge(b).unwrap().next_epoch, DAY);
    // no override at all leaves everything alone
    c.migrate(None).unwrap();
    assert_eq!(c.gauge(a).unwrap().next_epoch, 123456);
    // an override naming an unknown gauge is rejected whole
    assert_eq!(
        c.migrate(Some(vec![(b, 777), (99, 1)])),
        Err(GaugeError::GaugeNotFound)
    );
    assert_eq!(c.gauge(b).unwrap().next_epoch, DAY);
    // the last entry for a gauge wins
    c.migrate(Some(vec![(b, 10), (b, 20)])).unwrap();
    assert_eq!(c.gauge(b).unwrap().next_epoch, 20);
}

#[test]
fn schedule_overflow_is_reported() {
    let owner = String::from("owner");
    let mut c = GaugeController::new(owner.clone());
    let mut cfg = base_config();
    cfg.epoch_size = u64::MAX;
    let id = c.create_gauge(&owner, 0, cfg, vec![]).unwrap();
    assert_eq!(c.gauge(id).unwrap().next_epoch, u64::MAX);
    let powers: Vec<(String, u64)> = vec![];
    assert_eq!(c.execute(id, u64::MAX, &powers), Err(GaugeError::Overflow));
    // nothing moved
    assert_eq!(c.gauge(id).unwrap().next_epoch, u64::MAX);
    assert_eq!(c.last_executed_set(id).unwrap(), &None);
}
