use sps_storage::network::{join_network_dir, Network};

#[test]
fn network_directories() {
    assert_eq!(Network::Mainnet.get_dirname(), "");
    assert_eq!(Network::Testnet.get_dirname(), "testnet3");
    assert_eq!(Network::Signet.get_dirname(), "signet");
    assert_eq!(Network::Regtest.get_dirname(), "regtest");
    assert_eq!(Network::Testnet.name(), "testnet");
    assert_eq!(Network::Mainnet.name(), "mainnet");
}

#[test]
fn network_dir_is_joined_under_the_base() {
    assert_eq!(join_network_dir("/data", &Network::Regtest), "/data/regtest");
    assert_eq!(join_network_dir("/data/", &Network::Signet), "/data/signet");
    assert!(join_network_dir("/data", &Network::Mainnet).starts_with("/data"));
}

#[test]
fn error_messages_carry_the_inner_error() {
    let e = sps_storage::errors::StorageError::IoError(std::io::Error::new(
        std::io::ErrorKind::Other,
        "disk full",
    ));
    assert_eq!(e.message(), "IO error: disk full");
}
