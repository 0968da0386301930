use aurora_forwarder::types::account_id::AccountId;
use aurora_forwarder::utils::forwarder_prefix;
use aurora_forwarder::wire;

#[test]
fn test_creating_forward_prefix() {
    let address = "79271e4c45303443315323e69278ad59502baca1";
    let target_network = AccountId::new("aurora").unwrap();
    let fee_contract = AccountId::new("some-account-id.near").unwrap();

    assert_eq!(
        forwarder_prefix(address, &target_network, &fee_contract),
        "cgkjwrjmzubezxgnpkrmurjrfuj31rqn38gqjhfklqsv"
    )
}

#[test]
fn test_prefix_deterministic_and_input_sensitive() {
    let address = "79271e4c45303443315323e69278ad59502baca1";
    let network = AccountId::new("aurora").unwrap();
    let fees = AccountId::new("fees.near").unwrap();

    let first = forwarder_prefix(address, &network, &fees);
    let second = forwarder_prefix(address, &network, &fees);
    assert_eq!(first, second);

    let other_network = AccountId::new("silo-1.near").unwrap();
    assert_ne!(first, forwarder_prefix(address, &other_network, &fees));

    let other_address = "0000000000000000000000000000000000000000";
    assert_ne!(first, forwarder_prefix(other_address, &network, &fees));

    let other_fees = AccountId::new("other-fees.near").unwrap();
    assert_ne!(first, forwarder_prefix(address, &network, &other_fees));
}

#[test]
fn test_prefix_strips_hex_marker() {
    let network = AccountId::new("aurora").unwrap();
    let fees = AccountId::new("fees.near").unwrap();
    let bare = forwarder_prefix("79271e4c45303443315323e69278ad59502baca1", &network, &fees);
    let marked = forwarder_prefix("0x79271e4c45303443315323e69278ad59502baca1", &network, &fees);
    assert_eq!(bare, marked);
}

#[test]
fn test_hex_rendering_matches_reference() {
    let bytes = [0x7eu8, 0x5f, 0x45, 0x52, 0x09, 0x1a, 0x69, 0x12, 0x5d, 0x5d];
    let mut ours = Vec::new();
    wire::push_hex(&mut ours, &bytes);
    assert_eq!(ours, hex::encode(bytes).into_bytes());
}

#[test]
fn test_lowercase_folding() {
    let folded = wire::to_lower_bytes(b"AbC-Xyz_019");
    assert_eq!(&folded[..], b"abc-xyz_019");
    assert_eq!(wire::to_lower_bytes(&folded), folded);
}
