use the_trenches::asset::AssetId;
use the_trenches::competition::{Competition, Credential};
use the_trenches::decimal::Decimal;
use the_trenches::starter_vault::TradeVault;
use the_trenches::time::Instant;

#[test]
fn lib_test_instatiate_competition_and_register() {
    let fusd = AssetId::new(1);
    let user_token = AssetId::new(2);

    let registration_start = Instant::new(0);
    let registration_end = registration_start.add_days(5).unwrap();
    let competition_start = registration_end.add_days(1).unwrap();
    let competition_end = competition_start.add_days(7).unwrap();

    let mut competition =
        Competition::instantiate(competition_start, competition_end, fusd, user_token).unwrap();
    println!("{:?}\n", competition.get_competition_start_time());

    let trade_vault = TradeVault::instantiate(fusd);

    let proof = Credential { resource: user_token, local_id: "#1#".to_string() };
    competition.register(&proof, registration_start).unwrap();

    let balance = trade_vault.trade();
    println!("{:?}\n", balance);
    assert_eq!(balance, Decimal::from_units(10000));
}

#[test]
fn test_execute_trade() {
    let trade_vault = TradeVault::instantiate(AssetId::new(1));

    let result = trade_vault.trade();

    assert_eq!(result, Decimal::from_units(10000));
}
