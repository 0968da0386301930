use aurora_forwarder::factory::{
    decode_target_address, forwarder_new_args, AuroraForwarderFactory, DeployParameters,
    FactoryError, MAX_NUM_CONTRACTS,
};
use aurora_forwarder::new;
use aurora_forwarder::params::{parse_state, State};
use aurora_forwarder::runtime::Runtime;
use aurora_forwarder::types::account_id::AccountId;
use aurora_forwarder::utils::forwarder_prefix;

fn id(s: &str) -> AccountId {
    AccountId::new(s).unwrap()
}

fn request(address: &str) -> DeployParameters {
    DeployParameters {
        target_address: address.to_string(),
        target_network: id("aurora"),
        wnear_contract_id: id("wrap.test.near"),
    }
}

#[test]
fn test_create_derives_ids_in_order() {
    let factory = AuroraForwarderFactory::new(id("fees.near"), id("owner.near"));
    let current = id("factory.near");
    let requests = vec![
        request("0x17ffdf6becbbc34d5c7d3bf4a0ed4a680395d057"),
        request("79271e4c45303443315323e69278ad59502baca1"),
    ];
    let ids = factory.create(&requests, &current).unwrap();

    assert_eq!(ids.len(), 2);
    for (actor, req) in ids.iter().zip(&requests) {
        let prefix = forwarder_prefix(&req.target_address, &req.target_network, &id("fees.near"));
        assert_eq!(actor.as_str(), format!("{prefix}.factory.near"));
    }
}

#[test]
fn test_create_rejects_bad_batches() {
    let factory = AuroraForwarderFactory::new(id("fees.near"), id("owner.near"));
    let current = id("factory.near");

    assert_eq!(
        factory.create(&vec![], &current),
        Err(FactoryError::EmptyParameters)
    );

    let too_many: Vec<DeployParameters> = (0..MAX_NUM_CONTRACTS + 1)
        .map(|_| request("0x17ffdf6becbbc34d5c7d3bf4a0ed4a680395d057"))
        .collect();
    assert_eq!(
        factory.create(&too_many, &current),
        Err(FactoryError::TooManyParameters)
    );

    assert_eq!(
        factory.create(&vec![request("0xnot-hex")], &current),
        Err(FactoryError::InvalidAddress)
    );
    assert_eq!(
        factory.create(&vec![request("17ffdf6becbbc34d5c7d3bf4a0ed4a68")], &current),
        Err(FactoryError::InvalidAddress)
    );

    // a derived identifier longer than the host allows is rejected whole
    let long_factory = id(&format!("{}.near", "a".repeat(59)));
    assert_eq!(
        factory.create(
            &vec![request("0x17ffdf6becbbc34d5c7d3bf4a0ed4a680395d057")],
            &long_factory,
        ),
        Err(FactoryError::InvalidAccountId)
    );
}

#[test]
fn test_decode_target_address() {
    let decoded = decode_target_address(&"0x17ffdf6becbbc34d5c7d3bf4a0ed4a680395d057".to_string())
        .unwrap();
    let mut expected = [0; 20];
    hex::decode_to_slice("17ffdf6becbbc34d5c7d3bf4a0ed4a680395d057", &mut expected).unwrap();
    assert_eq!(decoded.0, expected);

    assert!(decode_target_address(&"0x1234".to_string()).is_none());
    assert!(decode_target_address(&"17FFDF6BECBBC34D5C7D3BF4A0ED4A680395D057".to_string())
        .is_some());
}

#[test]
fn test_forwarder_new_args_prefix_constructor_input() {
    let address = decode_target_address(&"17ffdf6becbbc34d5c7d3bf4a0ed4a680395d057".to_string())
        .unwrap();
    let args = forwarder_new_args(
        &address,
        &id("aurora"),
        &id("wrap.test.near"),
        &id("fees.near"),
        &id("factory.near"),
    );
    // the relay's constructor reads its configuration record from the front;
    // the trailing owner field is the factory's own bookkeeping
    let record_len = args.len() - (4 + "factory.near".len());
    let state = parse_state(&args[..record_len]).unwrap();
    assert_eq!(state.target_network, id("aurora"));
    assert_eq!(state.wnear_contract_id, id("wrap.test.near"));
    assert_eq!(state.fees_contract_id, id("fees.near"));
    assert_eq!(state.target_address.0, address.0);
}

#[test]
fn test_fees_contract_id_can_move() {
    let mut factory = AuroraForwarderFactory::new(id("fees.near"), id("owner.near"));
    assert_eq!(factory.get_fees_contract_id(), &id("fees.near"));
    factory.set_fees_contract_id(id("fees2.near"));
    assert_eq!(factory.get_fees_contract_id(), &id("fees2.near"));
}

#[test]
fn test_factory_derived_identity_passes_relay_check() {
    let factory = AuroraForwarderFactory::new(id("fees.near"), id("owner.near"));
    let current = id("factory.near");
    let req = request("0x17ffdf6becbbc34d5c7d3bf4a0ed4a680395d057");
    let ids = factory.create(&vec![req], &current).unwrap();
    let forwarder_id = &ids[0];

    let state = State {
        target_address: decode_target_address(
            &"0x17ffdf6becbbc34d5c7d3bf4a0ed4a680395d057".to_string(),
        )
        .unwrap(),
        target_network: id("aurora"),
        wnear_contract_id: id("wrap.test.near"),
        fees_contract_id: id("fees.near"),
    };

    // the relay actor, deployed under the derived identifier, accepts its
    // configuration: factory and relay share the addressing function
    let mut rt = Runtime::new(
        state.to_borsh(),
        id("signer.near"),
        forwarder_id.clone(),
        current,
        1,
        0,
        0,
        vec![],
    );
    assert!(new(&mut rt).is_ok());
}
