use pistol::hop::estimate_hops;
use pistol::hop::MAX_HOPS;

#[test]
fn first_distinguishing_ttl_is_the_estimate() {
    // reachable at hop 5: four silent TTLs, then the terminal-hop response
    let replies = vec![false, false, false, false, true];
    assert_eq!(estimate_hops(&replies), 5);
}

#[test]
fn a_sweep_stopped_at_its_first_hit_gives_the_same_estimate() {
    let replies = vec![false, false, true];
    assert_eq!(estimate_hops(&replies), 3);
}

#[test]
fn an_immediate_response_is_one_hop() {
    assert_eq!(estimate_hops(&vec![true]), 1);
}

#[test]
fn a_silent_sweep_estimates_zero() {
    let replies = vec![false; 30];
    assert_eq!(estimate_hops(&replies), 0);
    assert_eq!(estimate_hops(&Vec::new()), 0);
}

#[test]
fn the_sweep_never_looks_past_thirty_hops() {
    // a distinguishing response only beyond the bound is not an estimate
    let mut replies = vec![false; 31];
    replies[30] = true;
    assert_eq!(estimate_hops(&replies), 0);
    // the bound itself still counts
    let mut replies = vec![false; 30];
    replies[29] = true;
    assert_eq!(estimate_hops(&replies), MAX_HOPS);
}
