use massa::network::{wait_command_step, WaitAction, WaitEvent};
use massa::node::NodeId;
use massa::signature::PublicKey;

#[test]
fn node_id_text_is_base58check_of_key() {
    let secp = secp256k1::Secp256k1::new();
    let sk = secp256k1::SecretKey::from_slice(&[3u8; 32]).unwrap();
    let bytes = secp256k1::PublicKey::from_secret_key(&secp, &sk).serialize();
    let node = NodeId(PublicKey::from_bytes(&bytes).unwrap());
    let text = node.to_string();
    assert_eq!(text, bs58::encode(bytes).with_check().into_string());
    assert_eq!(bs58::decode(&text).with_check(None).into_vec().unwrap(), bytes.to_vec());
}

#[test]
fn public_key_refuses_bad_bytes() {
    assert!(PublicKey::from_bytes(&[0u8; 33]).is_err());
    let mut bytes = [0xffu8; 33];
    bytes[0] = 0x02;
    assert!(PublicKey::from_bytes(&bytes).is_err());
}

#[test]
fn wait_step_decisions() {
    assert!(matches!(wait_command_step(WaitEvent::Command(Some(4))), WaitAction::Finish(Some(4))));
    assert!(matches!(wait_command_step::<u8>(WaitEvent::Command(None)), WaitAction::KeepWaiting));
    assert!(matches!(wait_command_step::<u8>(WaitEvent::TimedOut), WaitAction::Finish(None)));
    assert!(matches!(wait_command_step::<u8>(WaitEvent::ChannelClosed), WaitAction::ChannelClosed));
}
