use snmptrap_rs::error::{Error, Platform};

#[test]
fn exit_codes() {
    assert_eq!(Error::Usage("x".to_string()).exit_code(), 2);
    assert_eq!(Error::Other("x".to_string()).exit_code(), 1);
    assert_eq!(Error::Encode("x".to_string()).exit_code(), 1);
}

#[test]
fn platform_names() {
    assert_eq!(Platform::current("linux"), Platform::Linux);
    assert_eq!(Platform::current("macos"), Platform::Macos);
    assert_eq!(Platform::current("freebsd"), Platform::Other);
}

#[test]
fn display_texts() {
    assert_eq!(Error::Encode("bad".to_string()).to_string(), "encoding error: bad");
    assert_eq!(Error::Routing("No route to host".to_string()).to_string(), "No route to host");
    let e = Error::RawSocketDenied { platform: Platform::Linux, underlying: "Operation not permitted (os error 1)".to_string() };
    assert_eq!(
        e.to_string(),
        "--src-addr requires raw IP socket capability, which this binary does not have.\n\
         \n\
         On Linux, grant it once with:\n\
         \n\
         \x20   sudo setcap cap_net_raw+ep \"$(command -v snmptrap-rs)\"\n\
         \n\
         Or run as root.\n\
         (raw socket open failed: Operation not permitted (os error 1))"
    );
    let e = Error::RawSocketDenied { platform: Platform::Macos, underlying: "x".to_string() };
    assert!(e.to_string().contains("On macOS, run as root (sudo)."));
}
