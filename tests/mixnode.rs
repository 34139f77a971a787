use client_core::mixnode::{FixedU128, Layer, NodeRewardResult, RewardedSetNodeStatus};

#[test]
fn only_active_status_is_active() {
    assert!(RewardedSetNodeStatus::Active.is_active());
    assert!(!RewardedSetNodeStatus::Standby.is_active());
}

#[test]
fn layer_labels_and_codes() {
    assert_eq!(Layer::Gateway.label(), "gateway");
    assert_eq!(Layer::One.label(), "1");
    assert_eq!(Layer::Two.label(), "2");
    assert_eq!(Layer::Three.label(), "3");
    assert_eq!(Layer::Gateway.code(), 0);
    assert_eq!(Layer::Three.code(), 3);
    assert!(Layer::Gateway < Layer::One && Layer::Two < Layer::Three);
}

#[test]
fn node_reward_result_getters() {
    let r = NodeRewardResult::new(FixedU128 { bits: 5 }, FixedU128 { bits: 6 }, FixedU128 { bits: 7 });
    assert_eq!(r.reward(), FixedU128 { bits: 5 });
    assert_eq!(r.lambda(), FixedU128 { bits: 6 });
    assert_eq!(r.sigma(), FixedU128 { bits: 7 });
}
