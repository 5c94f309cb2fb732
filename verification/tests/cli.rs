use ajazz_sdk::cli::{
    check_brightness, ensure_no_args, help, parse_command, parse_serial_flag, parse_u8,
    parse_u8_arg, Command,
};
use ajazz_sdk::devices::{select_device, sort_devices};
use ajazz_sdk::Kind;

fn args(v: &[&str]) -> Vec<String> {
    v.iter().map(|s| s.to_string()).collect()
}

#[test]
fn parse_u8_accepts_decimal_numerals() {
    assert_eq!(parse_u8("0"), Some(0));
    assert_eq!(parse_u8("255"), Some(255));
    assert_eq!(parse_u8("+7"), Some(7));
    assert_eq!(parse_u8("007"), Some(7));
    assert_eq!(parse_u8("256"), None);
    assert_eq!(parse_u8(""), None);
    assert_eq!(parse_u8("+"), None);
    assert_eq!(parse_u8("-1"), None);
    assert_eq!(parse_u8(" 1"), None);
    assert_eq!(parse_u8("99999999999"), None);
    for n in 0u16..=300 {
        assert_eq!(parse_u8(&n.to_string()), n.to_string().parse::<u8>().ok());
    }
}

#[test]
fn parse_u8_arg_names_the_argument() {
    assert_eq!(parse_u8_arg("key index", "3"), Ok(3));
    assert_eq!(parse_u8_arg("key index", "x"), Err("invalid key index: x".to_string()));
}

#[test]
fn ensure_no_args_lists_extras() {
    assert_eq!(ensure_no_args(&[]), Ok(()));
    assert_eq!(ensure_no_args(&args(&["a", "b c"])), Err("unexpected arguments: a b c".to_string()));
}

#[test]
fn serial_flag_parsing() {
    assert_eq!(parse_serial_flag(&[]), Ok(None));
    assert_eq!(parse_serial_flag(&args(&["--serial", "X1"])), Ok(Some("X1".to_string())));
    assert_eq!(parse_serial_flag(&args(&["-s"])), Err("unexpected argument '-s'".to_string()));
    assert_eq!(parse_serial_flag(&args(&["--serial"])), Err("missing value after --serial".to_string()));
    assert_eq!(
        parse_serial_flag(&args(&["--serial", "a", "--serial", "b"])),
        Err("--serial can only be passed once".to_string())
    );
}

#[test]
fn help_text() {
    let h = help();
    assert!(h.starts_with("Usage:\n  cargo run --bin ajazz -- list\n"));
    assert_eq!(h.lines().count(), 9);
    assert!(h.ends_with("set-all <image-path> [--serial SERIAL]"));
}

#[test]
fn commands_parse() {
    assert!(matches!(parse_command(&args(&["list"])), Ok(Command::List)));
    assert!(matches!(
        parse_command(&args(&["brightness", "50", "--serial", "S"])),
        Ok(Command::Brightness { percent: 50, serial: Some(ref s) }) if s == "S"
    ));
    assert!(matches!(
        parse_command(&args(&["set-key", "3", "a.jpg"])),
        Ok(Command::SetKey { key: 3, ref path, serial: None }) if path == "a.jpg"
    ));
    assert!(matches!(parse_command(&args(&["info"])), Ok(Command::Info { serial: None })));
    assert!(matches!(parse_command(&args(&["reset"])), Ok(Command::Reset { serial: None })));
    assert!(matches!(parse_command(&args(&["clear-all"])), Ok(Command::ClearAll { serial: None })));
    assert!(matches!(parse_command(&args(&["set-logo", "l.png"])), Ok(Command::SetLogo { .. })));
    assert!(matches!(parse_command(&args(&["set-all", "l.png"])), Ok(Command::SetAll { .. })));
}

#[test]
fn command_errors() {
    let err = |v: &[&str]| match parse_command(&args(v)) {
        Err(e) => e,
        Ok(_) => panic!("expected an error"),
    };
    assert_eq!(err(&[]), help());
    assert_eq!(err(&["-h"]), help());
    assert_eq!(err(&["list", "x"]), "unexpected arguments: x");
    assert_eq!(err(&["brightness"]), "missing brightness percent");
    assert_eq!(err(&["brightness", "300"]), "invalid brightness percent: 300");
    assert_eq!(err(&["set-key"]), "missing key index");
    assert_eq!(err(&["set-key", "x"]), "missing image path");
    assert_eq!(err(&["set-key", "x", "p"]), "invalid key index: x");
    assert_eq!(err(&["set-logo"]), "missing image path");
    assert_eq!(err(&["info", "--serial"]), "missing value after --serial");
    assert_eq!(err(&["frob"]), format!("unknown command 'frob'\n\n{}", help()));
}

#[test]
fn brightness_range() {
    assert_eq!(check_brightness(100), Ok(()));
    assert_eq!(
        check_brightness(101),
        Err("brightness percent must be in the range 0..=100".to_string())
    );
}

fn devs(v: &[(Kind, &str)]) -> Vec<(Kind, String)> {
    v.iter().map(|(k, s)| (*k, s.to_string())).collect()
}

#[test]
fn devices_sort_by_serial_then_name() {
    let sorted = sort_devices(&devs(&[
        (Kind::AkpN1, "B"),
        (Kind::Akp815, "A"),
        (Kind::Akp153, "B"),
        (Kind::Akp03, "AB"),
    ]));
    assert_eq!(
        sorted,
        devs(&[(Kind::Akp815, "A"), (Kind::Akp03, "AB"), (Kind::Akp153, "B"), (Kind::AkpN1, "B")])
    );
}

#[test]
fn device_selection() {
    assert_eq!(select_device(&vec![], None), Err("no supported Ajazz devices found".to_string()));
    let one = devs(&[(Kind::AkpN1, "S1")]);
    assert_eq!(select_device(&one, None), Ok((Kind::AkpN1, "S1".to_string())));
    let two = devs(&[(Kind::AkpN1, "S2"), (Kind::Akp153, "S1")]);
    assert_eq!(select_device(&two, Some("S2".to_string())), Ok((Kind::AkpN1, "S2".to_string())));
    assert_eq!(
        select_device(&two, Some("S9".to_string())),
        Err("no supported Ajazz device found with serial S9".to_string())
    );
    assert_eq!(
        select_device(&two, None),
        Err("multiple Ajazz devices found, pass --serial SERIAL:\n  AKP153 S1\n  N1 S2".to_string())
    );
}
