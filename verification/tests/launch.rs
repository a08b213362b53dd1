use csswitch_gateway::launch::{launch, port_arg, Launch};

fn args(list: &[&str]) -> Vec<String> {
    list.iter().map(|arg| arg.to_string()).collect()
}

#[test]
fn the_service_is_what_the_program_starts_by_itself() {
    assert_eq!(launch(&args(&["csswitch"])), Launch::Serve(None));
    assert_eq!(launch(&args(&["csswitch", "serve"])), Launch::Serve(None));
    assert_eq!(launch(&args(&["csswitch", "serve", "--port", "9000"])), Launch::Serve(Some(9000)));
}

#[test]
fn other_modes_are_named_first() {
    assert_eq!(launch(&args(&["csswitch", "official-passthrough", "--port", "1"])), Launch::OfficialPassthrough);
    assert_eq!(launch(&args(&["csswitch", "--provider", "relay"])), Launch::Gateway);
}

#[test]
fn a_port_that_is_no_port_is_none() {
    assert_eq!(port_arg(&args(&["csswitch", "--port"])), None);
    assert_eq!(port_arg(&args(&["csswitch", "--port", "65536"])), None);
    assert_eq!(port_arg(&args(&["csswitch", "--port", "x", "--port", "80"])), None);
    assert_eq!(port_arg(&args(&["csswitch", "--port", "+80"])), Some(80));
}
