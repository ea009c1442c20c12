use the_trenches::asset::AssetId;
use the_trenches::competition::{Competition, Credential};
use the_trenches::decimal::Decimal;
use the_trenches::oracle::SimpleOracle;
use the_trenches::time::Instant;
use the_trenches::trade_simulator::TradeSimulator;

struct ResourceAddresses {
    bitcoin: AssetId,
    ethereum: AssetId,
    solana: AssetId,
    fusd: AssetId,
}

impl ResourceAddresses {
    fn as_vec(&self) -> Vec<&AssetId> {
        vec![&self.bitcoin, &self.ethereum, &self.solana, &self.fusd]
    }
}

struct UnitTestEnvironment {
    now: Instant,
    oracle: SimpleOracle,
    trade_simulator: TradeSimulator,
    competition: Competition,
    resource_addresses: ResourceAddresses,
    user_token_proof: Credential,
}

impl UnitTestEnvironment {
    fn new() -> Self {
        let now = Instant::new(0);
        let user_token = AssetId::new(100);
        let user_token_proof = Credential {
            resource: user_token,
            local_id: "{a1b2c3d4e5f60718-293a4b5c6d7e8f90-a1b2c3d4e5f60718-293a4b5c6d7e8f90}"
                .to_string(),
        };

        let resource_addresses = ResourceAddresses {
            bitcoin: AssetId::new(1),
            ethereum: AssetId::new(2),
            solana: AssetId::new(3),
            fusd: AssetId::new(4),
        };

        let mut oracle = SimpleOracle::instantiate();
        for &resource_address in resource_addresses.as_vec() {
            oracle.set_price(resource_address, Decimal::from_units(1), now);
        }

        let mut trade_simulator = TradeSimulator::instantiate();
        for &resource_address in resource_addresses.as_vec() {
            trade_simulator.add_new_resource(resource_address);
        }

        let competition_start = now.add_days(1).unwrap();
        let competition_end = competition_start.add_days(7).unwrap();

        let competition = Competition::instantiate(
            competition_start,
            competition_end,
            resource_addresses.fusd,
            user_token,
        )
        .unwrap();

        UnitTestEnvironment {
            now,
            oracle,
            trade_simulator,
            competition,
            resource_addresses,
            user_token_proof,
        }
    }
}

#[test]
fn test_vault_can_register() {
    let UnitTestEnvironment { now, mut competition, user_token_proof, .. } =
        UnitTestEnvironment::new();

    let result = competition.register(&user_token_proof, now);

    assert!(result.is_ok());
}

#[test]
fn test_vault_cannot_register_after_competition_started() {
    let UnitTestEnvironment { mut competition, user_token_proof, .. } =
        UnitTestEnvironment::new();

    let now = Instant::new(0).add_days(2).unwrap();

    let result = competition.register(&user_token_proof, now);

    assert!(result.is_err());
}

#[test]
fn test_vault_can_trade_in_running_competition() {
    let UnitTestEnvironment {
        now,
        oracle,
        trade_simulator,
        mut competition,
        resource_addresses,
        user_token_proof,
    } = UnitTestEnvironment::new();

    competition.register(&user_token_proof, now).unwrap();

    let competition_start_time = competition.get_competition_start_time();
    let now = competition_start_time.add_days(2).unwrap();

    let result = competition.trade(
        &trade_simulator,
        &oracle,
        &user_token_proof,
        resource_addresses.fusd,
        resource_addresses.bitcoin,
        Decimal::one(),
        now,
    );

    assert!(result.is_ok());
}

#[test]
fn test_vault_cannot_trade_before_competition_starts() {
    let UnitTestEnvironment {
        now,
        oracle,
        trade_simulator,
        mut competition,
        resource_addresses,
        user_token_proof,
    } = UnitTestEnvironment::new();

    competition.register(&user_token_proof, now).unwrap();

    let result = competition.trade(
        &trade_simulator,
        &oracle,
        &user_token_proof,
        resource_addresses.fusd,
        resource_addresses.bitcoin,
        Decimal::one(),
        now,
    );

    assert!(result.is_err());
}

#[test]
fn test_vault_cannot_trade_after_competition_ends() {
    let UnitTestEnvironment {
        now,
        oracle,
        trade_simulator,
        mut competition,
        resource_addresses,
        user_token_proof,
    } = UnitTestEnvironment::new();

    competition.register(&user_token_proof, now).unwrap();

    let competition_end_time = competition.get_competition_end_time();
    let now = competition_end_time.add_days(10).unwrap();

    let result = competition.trade(
        &trade_simulator,
        &oracle,
        &user_token_proof,
        resource_addresses.fusd,
        resource_addresses.bitcoin,
        Decimal::one(),
        now,
    );

    assert!(result.is_err());
}
