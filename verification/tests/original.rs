#[test]
fn net_test() {}

#[test]
fn server_test() {}

#[test]
fn parse_str_test() {
    // ConfigClnt::new().parse_str("  asd  login@server");
}

#[test]
fn dirtoarhiv_test() {}

#[test]
fn ts() {}
