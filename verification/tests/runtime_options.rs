use runwasi_sandbox::config::{refused_body, Any, Config, Options};
use runwasi_sandbox::error::Error;

fn options(type_url: &str, config_path: &str, config_body: &str) -> Options {
    Options {
        type_url: type_url.to_string(),
        config_path: config_path.to_string(),
        config_body: config_body.to_string(),
    }
}

fn any(options: &Options) -> Any {
    Any { type_url: options.type_url.clone(), value: options.encode_to_vec() }
}

fn raw(value: Vec<u8>) -> Any {
    Any { type_url: String::new(), value }
}

fn fields(options: &Options) -> (&str, &str, &str) {
    (&options.type_url, &options.config_path, &options.config_body)
}

#[test]
fn test_default_runtime_options() {
    let options: Option<&Any> = None;

    let config = Config::get_from_options(options).unwrap();

    assert_eq!(config.systemd_cgroup, false);
}

#[test]
fn test_custom_runtime_options() {
    let options = Options {
        type_url: "runtimeoptions.v1.Options".to_string(),
        config_path: "".to_string(),
        config_body: "SystemdCgroup = true\n".to_string(),
    };
    let req_options = Some(Any {
        type_url: options.type_url.clone(),
        value: options.encode_to_vec(),
    });

    let config = Config::get_from_options(req_options.as_ref()).unwrap();

    assert_eq!(config.systemd_cgroup, true);
}

#[test]
fn default_config_has_no_systemd_cgroup() {
    assert_eq!(Config::default().systemd_cgroup, false);
}

#[test]
fn options_that_say_nothing_are_the_default() {
    let config = Config::get_from_options(Some(&raw(Vec::new()))).unwrap();
    assert_eq!(config.systemd_cgroup, false);

    let other = options("u", "p", "Other = 1\n");
    assert_eq!(Config::get_from_options(Some(&any(&other))).unwrap().systemd_cgroup, false);

    let off = options("", "", "SystemdCgroup = false");
    assert_eq!(Config::get_from_options(Some(&any(&off))).unwrap().systemd_cgroup, false);
}

#[test]
fn encoded_options_are_the_protobuf_wire_format() {
    assert_eq!(options("", "", "").encode_to_vec(), Vec::<u8>::new());
    assert_eq!(options("ab", "", "c").encode_to_vec(), vec![0x0a, 2, b'a', b'b', 0x1a, 1, b'c']);
    assert_eq!(options("", "\u{e9}", "").encode_to_vec(), vec![0x12, 2, 0xc3, 0xa9]);

    let long = "x".repeat(300);
    let bytes = options("", "", &long).encode_to_vec();
    assert_eq!(bytes[..3], [0x1a, 0xac, 0x02]);
    assert_eq!(bytes.len(), 303);
}

#[test]
fn options_are_decoded_as_they_were_encoded() {
    let long = "body \u{1f600}\n".repeat(2000);
    for o in [
        options("", "", ""),
        options("runtimeoptions.v1.Options", "/etc/x.toml", "SystemdCgroup = true"),
        options("t", "", &long),
    ] {
        let read = Options::decode(&o.encode_to_vec()).unwrap();
        assert_eq!(fields(&read), fields(&o));
    }
}

#[test]
fn later_fields_win_and_unknown_ones_are_passed_over() {
    // 7: varint, 8: fixed64, 9: fixed32, 10: bytes, then the type url twice.
    let bytes = vec![
        0x38, 0x96, 0x01, 0x41, 1, 2, 3, 4, 5, 6, 7, 8, 0x4d, 1, 2, 3, 4, 0x52, 2, 0xff, 0xfe, 0x0a,
        1, b'a', 0x0a, 1, b'b',
    ];
    let read = Options::decode(&bytes).unwrap();
    assert_eq!(fields(&read), ("b", "", ""));
}

#[test]
fn malformed_messages_are_refused() {
    let broken: Vec<Vec<u8>> = vec![
        vec![0x0a],
        vec![0x0a, 5, b'a'],
        vec![0x80],
        vec![0x0a, 1, 0xff],
        vec![0x08, 1],
        vec![0x0b],
        vec![0x38, 0xff, 0xff, 0xff, 0xff, 0xff, 0xff, 0xff, 0xff, 0xff, 0x02],
    ];
    for bytes in broken {
        assert!(Options::decode(&bytes).is_none(), "{:?}", bytes);
        match Config::get_from_options(Some(&raw(bytes))) {
            Err(Error::InvalidArgument(text)) => {
                assert_eq!(text, "invalid runtime options: malformed message");
            }
            _ => panic!("a malformed message was accepted"),
        }
    }
}

#[test]
fn bodies_that_are_no_toml_are_refused() {
    let o = options("", "", "SystemdCgroup = = true");
    match Config::get_from_options(Some(&any(&o))) {
        Err(Error::InvalidArgument(text)) => {
            assert!(text.starts_with("invalid runtime options: TOML parse error"), "{}", text);
        }
        _ => panic!("a broken body was accepted"),
    }
}

#[test]
fn refused_bodies_say_why() {
    assert_eq!(
        refused_body("why"),
        Error::InvalidArgument("invalid runtime options: why".to_string())
    );
}

#[test]
fn systemd_cgroup_has_to_be_a_boolean() {
    let o = options("", "", "SystemdCgroup = \"true\"");
    match Config::get_from_options(Some(&any(&o))) {
        Err(Error::InvalidArgument(text)) => {
            assert_eq!(text, "invalid runtime options: SystemdCgroup is not a boolean");
        }
        _ => panic!("a text was accepted for a boolean"),
    }
    let nested = options("", "", "[table]\nSystemdCgroup = 3\n");
    assert_eq!(Config::get_from_options(Some(&any(&nested))).unwrap().systemd_cgroup, false);
}

#[test]
fn entries_configure_by_their_key() {
    let entries = vec![
        ("Other".to_string(), None),
        ("SystemdCgroup".to_string(), Some(true)),
    ];
    assert_eq!(Config::from_entries(&entries).unwrap().systemd_cgroup, true);
    assert_eq!(Config::from_entries(&Vec::new()).unwrap().systemd_cgroup, false);
}
