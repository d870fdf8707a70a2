use nym_client::built_info::PKG_VERSION;
use nym_client::mix::MixClient;
use nym_client::topology::route;
use nym_client::{banner, usage};
use sphinx_packet::header::delays;
use sphinx_packet::test_utils::{fixtures, random_node};
use sphinx_packet::SphinxPacket;
use std::time::Duration;

#[test]
fn works() {
    // arrange
    let message = "Hello, Sphinx!".as_bytes().to_vec();
    let mixes = vec![random_node(), random_node(), random_node()];
    let destination = fixtures::destination_fixture();
    let delays = delays::generate_from_average_duration(mixes.len(), Duration::from_millis(10));
    let packet = SphinxPacket::new(message, &mixes, &destination, &delays).unwrap();
    let mix_client = MixClient::new();
    let first = mixes.first().unwrap();
    let first_hop = route::Node::new(
        first.address.as_base58_string(),
        format!("{:?}", first.pub_key.as_bytes()),
    );

    // act
    mix_client.send(packet, &first_hop);
}

#[test]
fn the_banner_names_the_version() {
    let expected = format!(
        "\n\n      _ __  _   _ _ __ ___\n     | '_ \\| | | | '_ \\ _ \\\n     | | | | |_| | | | | | |\n     |_| |_|\\__, |_| |_| |_|\n            |___/\n\n             (client - version {})\n\n    ",
        PKG_VERSION
    );
    assert_eq!(banner(), expected);
    assert!(banner().contains("(client - version 0.1.0)"));
}

#[test]
fn the_usage_note_follows_the_banner() {
    assert_eq!(
        usage(),
        banner() + "usage: --help to see available options.\n\n"
    );
}
