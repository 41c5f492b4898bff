use cache_hydration::codec::{parse, Identifier};
use cache_hydration::entity::{all_entity_types, EntityType, MissingKeyPolicy};
use cache_hydration::error::HydrationError;

fn malformed(key: &str) -> Result<Identifier, HydrationError> {
    Err(HydrationError::MalformedKey { key: key.to_string() })
}

#[test]
fn a_key_decodes_to_its_identifier() {
    let id = parse(EntityType::Currency, "currencies:USD").unwrap();
    assert_eq!(id.as_str(), "USD");
    assert_eq!(id.entity(), EntityType::Currency);
    let id = parse(EntityType::Instrument, "instruments:AUD/USD.SIM").unwrap();
    assert_eq!(id.as_str(), "AUD/USD.SIM");
    let id = parse(EntityType::Order, "orders:O-20210410-022422-001-001-1").unwrap();
    assert_eq!(id.as_str(), "O-20210410-022422-001-001-1");
    let id = parse(EntityType::Account, "accounts:A1").unwrap();
    assert_eq!(id.as_str(), "A1");
    let id = parse(EntityType::Synthetic, "synthetics:BTC-ETH.SYNTH").unwrap();
    assert_eq!(id.as_str(), "BTC-ETH.SYNTH");
}

#[test]
fn a_key_without_identifier_is_malformed() {
    assert_eq!(parse(EntityType::Currency, "currencies:"), malformed("currencies:"));
    assert_eq!(parse(EntityType::Currency, "currencies"), malformed("currencies"));
    assert_eq!(parse(EntityType::Currency, ""), malformed(""));
}

#[test]
fn a_key_of_another_prefix_is_malformed() {
    assert_eq!(parse(EntityType::Currency, "accounts:USD"), malformed("accounts:USD"));
    assert_eq!(parse(EntityType::Currency, "currency:USD"), malformed("currency:USD"));
    assert_eq!(parse(EntityType::Currency, "currencies_old:USD"), malformed("currencies_old:USD"));
    assert_eq!(parse(EntityType::Order, "Orders:O-1"), malformed("Orders:O-1"));
    assert_eq!(parse(EntityType::Currency, "currenciesUSD"), malformed("currenciesUSD"));
}

#[test]
fn an_identifier_with_a_delimiter_is_malformed() {
    assert_eq!(parse(EntityType::Currency, "currencies:USD:x"), malformed("currencies:USD:x"));
    assert_eq!(parse(EntityType::Currency, "currencies::USD"), malformed("currencies::USD"));
    assert_eq!(parse(EntityType::Currency, "currencies:USD:"), malformed("currencies:USD:"));
}

#[test]
fn an_identifier_outside_visible_ascii_is_malformed() {
    assert_eq!(parse(EntityType::Account, "accounts:A 1"), malformed("accounts:A 1"));
    assert_eq!(parse(EntityType::Account, "accounts:A\t1"), malformed("accounts:A\t1"));
    assert_eq!(parse(EntityType::Account, "accounts:A\u{7f}"), malformed("accounts:A\u{7f}"));
    assert_eq!(parse(EntityType::Account, "accounts:Zürich"), malformed("accounts:Zürich"));
    assert_eq!(parse(EntityType::Account, "accöunts:A1"), malformed("accöunts:A1"));
    assert!(parse(EntityType::Account, "accounts:!~").is_ok());
}

#[test]
fn encoding_and_decoding_undo_each_other() {
    for entity in all_entity_types() {
        let key = format!("{}:{}", entity.prefix(), "X-1.y");
        let id = parse(entity, &key).unwrap();
        assert_eq!(id.to_key(), key);
        assert_eq!(parse(entity, &id.to_key()).unwrap(), id);
    }
    let id = Identifier { entity: EntityType::Order, text: "O-7".to_string() };
    assert_eq!(id.to_key(), "orders:O-7");
}

#[test]
fn a_key_decodes_for_one_entity_type_only() {
    let key = "synthetics:S1";
    let mut decoded = 0;
    for entity in all_entity_types() {
        if parse(entity, key).is_ok() {
            decoded += 1;
        }
    }
    assert_eq!(decoded, 1);
}

#[test]
fn prefixes_patterns_and_policies() {
    assert_eq!(EntityType::Currency.prefix(), "currencies");
    assert_eq!(EntityType::Instrument.prefix(), "instruments");
    assert_eq!(EntityType::Synthetic.prefix(), "synthetics");
    assert_eq!(EntityType::Account.prefix(), "accounts");
    assert_eq!(EntityType::Order.prefix(), "orders");
    assert_eq!(EntityType::Currency.pattern(), "currencies*");
    assert_eq!(EntityType::Order.pattern(), "orders*");
    assert_eq!(EntityType::Currency.policy(), MissingKeyPolicy::Lenient);
    assert_eq!(EntityType::Instrument.policy(), MissingKeyPolicy::Lenient);
    assert_eq!(EntityType::Synthetic.policy(), MissingKeyPolicy::Strict);
    assert_eq!(EntityType::Account.policy(), MissingKeyPolicy::Lenient);
    assert_eq!(EntityType::Order.policy(), MissingKeyPolicy::Lenient);
    assert_eq!(
        all_entity_types(),
        vec![
            EntityType::Currency,
            EntityType::Instrument,
            EntityType::Synthetic,
            EntityType::Account,
            EntityType::Order,
        ]
    );
}

#[test]
fn errors_report_their_key() {
    assert_eq!(
        HydrationError::MalformedKey { key: "orders".to_string() }.message(),
        "malformed key: orders"
    );
    assert_eq!(
        HydrationError::DuplicateIdentifier { identifier: "USD".to_string() }.message(),
        "duplicate identifier: USD"
    );
    assert_eq!(
        HydrationError::BridgeClosed.message(),
        "bridge closed before a result was delivered"
    );
}
