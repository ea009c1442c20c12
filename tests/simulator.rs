use the_trenches::asset::AssetId;
use the_trenches::competition::{Competition, Credential};
use the_trenches::decimal::Decimal;
use the_trenches::oracle::SimpleOracle;
use the_trenches::starter_vault::TradeVault;
use the_trenches::time::Instant;
use the_trenches::trade_simulator::TradeSimulator;

struct SimulatorTestEnvironment {
    oracle: SimpleOracle,
    trade_simulator: TradeSimulator,
    competition: Competition,
}

impl SimulatorTestEnvironment {
    fn new() -> Self {
        let fusd = AssetId::new(10);
        let user_token = AssetId::new(11);

        let oracle = SimpleOracle::instantiate();
        let trade_simulator = TradeSimulator::instantiate();

        let competition =
            Competition::instantiate(Instant::new(0), Instant::new(1), fusd, user_token).unwrap();

        SimulatorTestEnvironment { oracle, trade_simulator, competition }
    }
}

#[test]
fn test_env_setup() {
    let env = SimulatorTestEnvironment::new();
    assert_eq!(env.competition.get_competition_start_time(), Instant::new(0));
    assert_eq!(env.competition.get_competition_end_time(), Instant::new(1));
    assert!(!env.trade_simulator.is_allowed(AssetId::new(10)));
    assert!(env.oracle.get_price(AssetId::new(10)).is_err());
}

#[test]
fn simulator_test_instatiate_competition_and_register() {
    let fusd = AssetId::new(1);
    let user_token = AssetId::new(2);

    let registration_start = Instant::new(0);
    let registration_end = registration_start.add_days(5).unwrap();
    let competition_start = registration_end.add_days(1).unwrap();
    let competition_end = competition_start.add_days(7).unwrap();

    let mut competition =
        Competition::instantiate(competition_start, competition_end, fusd, user_token).unwrap();

    let trade_vault = TradeVault::instantiate(fusd);

    let proof = Credential { resource: user_token, local_id: "#7#".to_string() };
    assert!(competition.register(&proof, registration_start).is_ok());

    assert_eq!(trade_vault.trade(), Decimal::from_units(10000));
}
