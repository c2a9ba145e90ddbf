use myfirstclap::net::{select_address, IpAddress, SocketAddress};

fn addr4(a: u8, b: u8, c: u8, d: u8, port: u16) -> SocketAddress {
    SocketAddress { ip: IpAddress::V4(a, b, c, d), port }
}

fn addr6(port: u16) -> SocketAddress {
    SocketAddress { ip: IpAddress::V6(0x2001, 0xdb8, 0, 0, 0, 0, 0, 1), port }
}

#[test]
fn first_ipv4_wins_over_earlier_ipv6() {
    let picked = select_address(&vec![addr6(3000), addr4(127, 0, 0, 1, 3000), addr4(10, 0, 0, 1, 3000)]);
    assert_eq!(picked, Some(addr4(127, 0, 0, 1, 3000)));
}

#[test]
fn first_candidate_wins_when_no_ipv4_exists() {
    let picked = select_address(&vec![addr6(3000), addr6(3001)]);
    assert_eq!(picked, Some(addr6(3000)));
}

#[test]
fn no_candidates_means_no_address() {
    assert_eq!(select_address(&vec![]), None);
}

#[test]
fn the_port_travels_with_the_address() {
    let picked = select_address(&vec![addr4(0, 0, 0, 0, 8080)]);
    assert_eq!(picked, Some(SocketAddress { ip: IpAddress::V4(0, 0, 0, 0), port: 8080 }));
}
