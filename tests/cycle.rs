use spot_sniper::engine::{plan_buy, Burst, BurstAction, Phase, Position, MAX_WAVES, WAVE_SIZE};
use spot_sniper::schedule::{parse_trigger_time, trigger_window, TriggerAction};

#[test]
fn window_opens_at_lead_and_closes_at_target() {
    let t: i64 = 1_700_000_000_000;
    let w = trigger_window(t, 30);
    assert!(!w.contains(t - 31_000));
    assert!(w.contains(t - 30_000));
    assert!(w.contains(t - 1_000));
    assert!(!w.contains(t));
    assert_eq!(w.step(t - 30_000), TriggerAction::Fire);
    assert_eq!(w.step(t), TriggerAction::Wait);
}

#[test]
fn trigger_time_parsing() {
    assert_eq!(parse_trigger_time("09:30:05"), Some(34_205_000));
    assert_eq!(parse_trigger_time("00:00:00"), Some(0));
    assert_eq!(parse_trigger_time("23:59:59"), Some(86_399_000));
    assert_eq!(parse_trigger_time("25:00:00"), None);
    assert_eq!(parse_trigger_time("noon"), None);
}

#[test]
fn burst_stops_after_the_wave_with_an_accepted_order() {
    let mut burst = Burst::new();
    let failed = vec![false; WAVE_SIZE];
    assert_eq!(burst.record_wave(&failed), BurstAction::NextWave);
    let mut second = vec![false; WAVE_SIZE];
    second[6] = true;
    assert_eq!(burst.record_wave(&second), BurstAction::Placed);
    assert!(burst.placed);
    assert_eq!(burst.accepted, 1);
}

#[test]
fn burst_requotes_after_all_waves_fail() {
    let mut burst = Burst::new();
    let failed = vec![false; WAVE_SIZE];
    for _ in 1..MAX_WAVES {
        assert_eq!(burst.record_wave(&failed), BurstAction::NextWave);
    }
    assert_eq!(burst.record_wave(&failed), BurstAction::Requote);
    assert_eq!(burst.waves_fired, 0);
    assert!(!burst.placed);
}

#[test]
fn buy_plan_for_hundred_at_fifty() {
    let plan = plan_buy(50 * 100_000_000, 100 * 100_000_000).unwrap();
    assert_eq!(plan.price, 50 * 100_000_000);
    assert_eq!(plan.price_text, "50");
    assert_eq!(plan.qty, "1.9");
}

#[test]
fn buy_plan_needs_a_nonzero_limit() {
    assert!(plan_buy(0, 100 * 100_000_000).is_none());
}

#[test]
fn position_sells_once_target_is_reached() {
    let mut pos = Position::new(105_000_000);
    pos.on_fill_poll(0, 50 * 100_000_000);
    assert_eq!(pos.phase, Phase::AwaitingFill);
    pos.on_fill_poll(200_000_000, 5_090_000_000);
    assert_eq!(pos.phase, Phase::WatchingPrice { buy_price: 50 * 100_000_000 });
    pos.on_price(5_240_000_000);
    assert_eq!(pos.phase, Phase::WatchingPrice { buy_price: 50 * 100_000_000 });
    pos.on_price(5_250_000_000);
    assert_eq!(pos.phase, Phase::WatchingPrice { buy_price: 50 * 100_000_000 });
    pos.on_price(5_310_000_000);
    assert_eq!(pos.phase, Phase::Selling { last_price: 5_300_000_000 });
    let plan = pos.plan_sell(200_000_000);
    assert_eq!(plan.price_text, "52");
    assert_eq!(plan.qty, "1.99");
    pos.on_sell_response(false);
    assert_eq!(pos.phase, Phase::Selling { last_price: 5_300_000_000 });
    pos.on_sell_response(true);
    assert_eq!(pos.phase, Phase::Done);
}
