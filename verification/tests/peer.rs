use zbus::fdo::error::Error;
use zbus::fdo::peer::{
    get_platform_machine_id, machine_id_from_hostuuid, read_dbus_machine_id, to_hex,
    MachineIdReport, Peer,
};

fn is_machine_id(id: &str) -> bool {
    id.len() == 32 && id.bytes().all(|b| matches!(b, b'0'..=b'9' | b'a'..=b'f'))
}

#[test]
fn linux_machine_id() {
    let report = MachineIdReport::Files {
        primary: Ok("0123456789abcdef0123456789abcdef\n".to_string()),
        fallback: None,
    };
    if let Ok(id) = get_platform_machine_id(report) {
        assert_eq!(id.len(), 32, "machine ID should be 32 hex characters");
        assert!(
            id.chars().all(|c| c.is_ascii_hexdigit()),
            "machine ID should only contain hex characters"
        );
    } else {
        panic!("a readable file gives an identity");
    }
}

#[test]
fn macos_machine_id() {
    let report = MachineIdReport::HostUuid {
        status: 0,
        uuid: [
            0x00, 0x11, 0x22, 0x33, 0x44, 0x55, 0x66, 0x77, 0x88, 0x99, 0xaa, 0xbb, 0xcc, 0xdd,
            0xee, 0xff,
        ],
        os_error: String::new(),
    };
    let id = get_platform_machine_id(report).expect("gethostuuid should succeed on macOS");
    assert_eq!(id.len(), 32, "machine ID should be 32 hex characters");
    assert!(
        id.chars().all(|c| c.is_ascii_hexdigit()),
        "machine ID should only contain hex characters"
    );
    assert_eq!(id, "00112233445566778899aabbccddeeff");
}

#[test]
fn freebsd_machine_id() {
    // No file holds an identity, so the sysctl decides.
    let mut buffer = b"01234567-89ab-cdef-0123-456789abcdef\0".to_vec();
    buffer.resize(64, 0);
    let report = MachineIdReport::Sysctl { status: 0, buffer, os_error: String::new() };
    let peer = Peer;
    let id = peer
        .get_machine_id(&[None, None, None], report)
        .expect("should get machine ID on FreeBSD/DragonFlyBSD");
    assert_eq!(id.len(), 32, "machine ID should be 32 hex characters");
    assert!(
        id.chars().all(|c| c.is_ascii_hexdigit()),
        "machine ID should only contain hex characters"
    );
    assert_eq!(id, "0123456789abcdef0123456789abcdef");
}

#[test]
fn openbsd_netbsd_machine_id() {
    let peer = Peer;
    let files = [None, None, Some("fedcba9876543210fedcba9876543210\n".to_string())];
    if let Ok(id) = peer.get_machine_id(&files, MachineIdReport::FilesOnly) {
        assert_eq!(id.len(), 32, "machine ID should be 32 hex characters");
        assert!(
            id.chars().all(|c| c.is_ascii_hexdigit()),
            "machine ID should only contain hex characters"
        );
    } else {
        panic!("a file that holds an identity gives it");
    }
    // Without the file there is nothing to fall back on.
    match peer.get_machine_id(&[None, None, None], MachineIdReport::FilesOnly) {
        Err(Error::IOError(text)) => assert!(text.starts_with("No machine-id found.")),
        other => panic!("unexpected: {:?}", other),
    }
}

#[test]
fn ping_does_nothing() {
    Peer.ping();
}

#[test]
fn linux_falls_back_to_the_second_file() {
    let report = MachineIdReport::Files {
        primary: Err("No such file or directory (os error 2)".to_string()),
        fallback: Some("00000000000000000000000000000001 \t\n".to_string()),
    };
    assert_eq!(
        get_platform_machine_id(report),
        Ok("00000000000000000000000000000001".to_string())
    );
}

#[test]
fn linux_without_files_reports_the_first_error() {
    let report = MachineIdReport::Files {
        primary: Err("No such file or directory (os error 2)".to_string()),
        fallback: None,
    };
    assert_eq!(
        get_platform_machine_id(report),
        Err(Error::IOError(
            "Failed to read from /var/lib/dbus/machine-id or /etc/machine-id: No such file or directory (os error 2)"
                .to_string()
        ))
    );
}

#[test]
fn a_file_that_holds_no_identity_is_an_error() {
    for contents in ["  ab \n", "", "\n", "0123456789ABCDEF0123456789abcdef\n", "0123\n",
        " 0123456789abcdef0123456789abcdef", "0123456789abcdef0123456789abcdef0"]
    {
        let report =
            MachineIdReport::Files { primary: Ok(contents.to_string()), fallback: None };
        assert_eq!(
            get_platform_machine_id(report),
            Err(Error::IOError(format!(
                "Invalid machine-id in /var/lib/dbus/machine-id or /etc/machine-id: {}",
                contents.trim_end()
            ))),
            "{contents:?}"
        );
    }
}

#[test]
fn every_identity_is_32_lower_case_hexadecimal_digits() {
    let reports = vec![
        MachineIdReport::Files {
            primary: Ok("0123456789abcdef0123456789abcdef\n".to_string()),
            fallback: None,
        },
        MachineIdReport::HostUuid { status: 0, uuid: [0xAB; 16], os_error: String::new() },
        MachineIdReport::Sysctl {
            status: 0,
            buffer: b"01234567-89ab-cdef-0123-456789abcdef\0".to_vec(),
            os_error: String::new(),
        },
        MachineIdReport::HardwareProfile(Ok(
            "{846ee340-7039-11de-9d20-806e6f6e6963}".to_string()
        )),
    ];
    for report in reports {
        let id = get_platform_machine_id(report).unwrap();
        assert!(is_machine_id(&id), "{id}");
    }
}

#[test]
fn macos_failure_carries_the_system_error() {
    let report = MachineIdReport::HostUuid {
        status: -1,
        uuid: [0; 16],
        os_error: "Operation timed out (os error 60)".to_string(),
    };
    assert_eq!(
        get_platform_machine_id(report),
        Err(Error::IOError("gethostuuid failed: Operation timed out (os error 60)".to_string()))
    );
}

#[test]
fn hex_is_lower_case_and_high_half_first() {
    assert_eq!(to_hex(&[0x0f, 0xa0, 0x7b]), "0fa07b");
    assert_eq!(to_hex(&[]), "");
}

#[test]
fn sysctl_failure_carries_the_system_error() {
    let report = MachineIdReport::Sysctl {
        status: -1,
        buffer: vec![0; 64],
        os_error: "boom".to_string(),
    };
    assert_eq!(
        get_platform_machine_id(report),
        Err(Error::IOError("sysctlbyname(kern.hostuuid) failed: boom".to_string()))
    );
}

#[test]
fn hostuuid_without_terminator() {
    assert_eq!(
        machine_id_from_hostuuid(b"0123"),
        Err(Error::IOError(
            "Invalid UTF-8 in hostuuid: data provided does not contain a nul".to_string()
        ))
    );
}

#[test]
fn hostuuid_that_is_no_text() {
    match machine_id_from_hostuuid(&[0xff, 0xfe, 0x00]) {
        Err(Error::IOError(text)) => assert!(text.starts_with("Invalid UTF-8 in hostuuid: ")),
        other => panic!("unexpected: {:?}", other),
    }
}

#[test]
fn hostuuid_of_the_wrong_shape() {
    assert_eq!(
        machine_id_from_hostuuid(b"0123-4567\0"),
        Err(Error::IOError("Invalid hostuuid format: 0123-4567".to_string()))
    );
    // 32 characters, one of them no hexadecimal digit
    assert_eq!(
        machine_id_from_hostuuid(b"0123456789abcdef0123456789abcdeg\0"),
        Err(Error::IOError(
            "Invalid hostuuid format: 0123456789abcdef0123456789abcdeg".to_string()
        ))
    );
}

#[test]
fn hostuuid_stops_at_the_first_terminator() {
    assert_eq!(
        machine_id_from_hostuuid(b"0123456789abcdef-0123456789abcdef\0garbage\0"),
        Ok("0123456789abcdef0123456789abcdef".to_string())
    );
}

#[test]
fn hostuuid_in_upper_case_is_no_identity() {
    assert_eq!(
        machine_id_from_hostuuid(b"0123456789ABCDEF-0123456789abcdef\0"),
        Err(Error::IOError(
            "Invalid hostuuid format: 0123456789ABCDEF-0123456789abcdef".to_string()
        ))
    );
}

#[test]
fn unknown_platform_is_not_supported() {
    assert_eq!(
        get_platform_machine_id(MachineIdReport::Unknown),
        Err(Error::NotSupported(
            "get_machine_id is not yet implemented on this platform".to_string()
        ))
    );
}

#[test]
fn hardware_profile_gives_its_guid_without_braces_and_dashes() {
    assert_eq!(
        get_platform_machine_id(MachineIdReport::HardwareProfile(Ok(
            "{846ee340-7039-11de-9d20-806e6f6e6963}".to_string()
        ))),
        Ok("846ee340703911de9d20806e6f6e6963".to_string())
    );
    assert_eq!(
        get_platform_machine_id(MachineIdReport::HardwareProfile(Ok("abc".to_string()))),
        Err(Error::IOError("Invalid hardware profile GUID: abc".to_string()))
    );
    assert_eq!(
        get_platform_machine_id(MachineIdReport::HardwareProfile(Err("denied".to_string()))),
        Err(Error::IOError("denied".to_string()))
    );
}

#[test]
fn first_file_with_an_identity_wins() {
    let files = [
        Some(" \n".to_string()),
        None,
        Some("third\n".to_string()),
        Some("00000000000000000000000000000004\n".to_string()),
        Some("00000000000000000000000000000005".to_string()),
    ];
    assert_eq!(
        read_dbus_machine_id(&files),
        Some("00000000000000000000000000000004".to_string())
    );
    assert_eq!(read_dbus_machine_id(&[Some(String::new()), None]), None);
    assert_eq!(read_dbus_machine_id(&[Some("no identity".to_string())]), None);
    assert_eq!(read_dbus_machine_id(&[]), None);
}

#[test]
fn files_come_before_the_platform() {
    let files = [Some("0000000000000000000000000000000f\n".to_string())];
    let report = MachineIdReport::HardwareProfile(Ok(
        "{846ee340-7039-11de-9d20-806e6f6e6963}".to_string()
    ));
    assert_eq!(
        Peer.get_machine_id(&files, report),
        Ok("0000000000000000000000000000000f".to_string())
    );
    let report = MachineIdReport::HardwareProfile(Ok(
        "{846ee340-7039-11de-9d20-806e6f6e6963}".to_string()
    ));
    assert_eq!(
        Peer.get_machine_id(&[Some("nothing".to_string())], report),
        Ok("846ee340703911de9d20806e6f6e6963".to_string())
    );
    assert!(is_machine_id("0123456789abcdef0123456789abcdef"));
    assert!(!is_machine_id("0123456789ABCDEF0123456789abcdef"));
}
