use ankerstatus::ble::{
    advertised_service, auto_select, find_anker_device, notify_char, notify_characteristic,
    print_gatt_services, scan_and_print, scan_summary, scan_summary_of, select_device, write_char, write_characteristic,
    GattCharacteristic, GattService, MissingChar, NoDevice, SeenDevice, ADVERTISED_SERVICE,
    NOTIFY_CHAR, WRITE_CHAR,
};
use ankerstatus::cli::{cmd_id_of, parse_cmd_id, Args, DashboardUnfed, Interval, Mode};
use ankerstatus::clock::{current_ts_bytes, span_ts_bytes, ts_bytes};
use ankerstatus::protocol::{ADVERTISED_SERVICE_UUID, NOTIFY_CHAR_UUID, WRITE_CHAR_UUID};
use uuid::Uuid;

#[test]
fn command_ids() {
    assert_eq!(parse_cmd_id("0xFE"), Ok(0xFE));
    assert_eq!(parse_cmd_id("0XfE"), Ok(0xFE));
    assert_eq!(parse_cmd_id("fe"), Ok(0xFE));
    assert_eq!(parse_cmd_id("0x0x0X0X30"), Ok(0x30));
    assert_eq!(parse_cmd_id("10"), Ok(10));
    assert_eq!(parse_cmd_id("+10"), Ok(10));
    assert_eq!(parse_cmd_id("0x10"), Ok(0x10));
    assert_eq!(parse_cmd_id("1a"), Ok(0x1A));
    assert_eq!(parse_cmd_id("0x+10"), Ok(0x10));
    assert_eq!(parse_cmd_id("10000"), Ok(10000));
    assert_eq!(parse_cmd_id("65535"), Ok(65535));
    assert_eq!(parse_cmd_id("ffff"), Ok(0xFFFF));
    assert_eq!(parse_cmd_id("000000001"), Ok(1));
    assert_eq!(parse_cmd_id("GET_SOFTWARE_VERSION"), Ok(0x0030));
    assert_eq!(parse_cmd_id("get_software_version"), Ok(0x0030));
    assert_eq!(parse_cmd_id("Get_Software_Version"), Ok(0x0030));
}

#[test]
fn bad_command_ids() {
    for s in ["", "0x", "+", "-1", "70000", "fffff", "0X0x10", "1 ", "xyz", "1_0", "é"] {
        assert_eq!(
            parse_cmd_id(s),
            Err(format!("'{s}' is not a valid command ID (use hex 0xNNNN or decimal)"))
        );
    }
}

#[test]
fn command_ids_by_name() {
    assert_eq!(cmd_id_of("anything", "GET_SOFTWARE_VERSION"), Ok(0x30));
    assert_eq!(cmd_id_of("12", "GET_VERSION"), Ok(12));
    assert!(cmd_id_of("GET_SOFTWARE_VERSION", "").is_err());
}

#[test]
fn hex_command_ids_are_read_back() {
    for id in [0u16, 1, 0x0030, 0x0ABC, 0x820A, 0xFFFF] {
        assert_eq!(parse_cmd_id(&format!("0x{id:04X}")), Ok(id));
        assert_eq!(parse_cmd_id(&format!("0X{id:04X}")), Ok(id));
    }
}

#[test]
fn decimal_command_ids_are_read_back() {
    for id in [0u16, 9, 10, 48, 9999, 10000, 65535] {
        assert_eq!(parse_cmd_id(&id.to_string()), Ok(id));
    }
}

fn args() -> Args {
    Args {
        mac: None,
        scan: false,
        cmds: vec![],
        group: 0x11,
        listen: false,
        telemetry: false,
        dashboard: false,
        server: false,
        verbose: false,
    }
}

#[test]
fn modes_of_the_command_line() {
    assert_eq!(args().mode(), Ok(Mode::Scan));
    assert_eq!(Args { scan: true, ..args() }.mode(), Ok(Mode::ListDevices));
    assert_eq!(
        Args { scan: true, mac: Some("x".to_string()), ..args() }.mode(),
        Ok(Mode::Scan)
    );
    assert_eq!(
        Args { cmds: vec![1], group: 0x1234, ..args() }.mode(),
        Ok(Mode::Commands { group: 0x34 })
    );
    assert_eq!(
        Args { telemetry: true, cmds: vec![1], ..args() }.mode(),
        Ok(Mode::Telemetry { interval: Interval::Given })
    );
    assert_eq!(
        Args { server: true, ..args() }.mode(),
        Ok(Mode::Telemetry { interval: Interval::Standard })
    );
    assert_eq!(
        Args { dashboard: true, server: true, ..args() }.mode(),
        Ok(Mode::Dashboard { interval: Interval::Standard })
    );
    assert_eq!(
        Args { dashboard: true, telemetry: true, ..args() }.mode(),
        Ok(Mode::Dashboard { interval: Interval::Given })
    );
    assert_eq!(Args { dashboard: true, scan: true, ..args() }.mode(), Err(DashboardUnfed));
    assert_eq!(DashboardUnfed.message(), "--dashboard requires --telemetry or --server");
}

#[test]
fn timestamps_are_little_endian() {
    assert_eq!(ts_bytes(0x1_1234_5678), [0x78, 0x56, 0x34, 0x12]);
    assert_eq!(ts_bytes(0), [0, 0, 0, 0]);
    assert_eq!(span_ts_bytes(Some((0x0102, 999_999_999))), [2, 1, 0, 0]);
    assert_eq!(span_ts_bytes(None), [0, 0, 0, 0]);
    let now = u32::from_le_bytes(current_ts_bytes());
    assert!(now > 1_600_000_000);
}

#[test]
fn uuids_are_those_of_their_texts() {
    assert_eq!(
        advertised_service(),
        Uuid::parse_str(ADVERTISED_SERVICE_UUID).unwrap().into_bytes()
    );
    assert_eq!(write_char(), Uuid::parse_str(WRITE_CHAR_UUID).unwrap().into_bytes());
    assert_eq!(notify_char(), Uuid::parse_str(NOTIFY_CHAR_UUID).unwrap().into_bytes());
    assert_eq!(advertised_service(), ADVERTISED_SERVICE);
    assert_eq!(write_char(), WRITE_CHAR);
    assert_eq!(notify_char(), NOTIFY_CHAR);
}

#[test]
fn characteristics_are_found() {
    let chars = [[0u8; 16], WRITE_CHAR, NOTIFY_CHAR, NOTIFY_CHAR];
    assert_eq!(notify_characteristic(&chars), Ok(2));
    assert_eq!(write_characteristic(&chars), Ok(1));
    assert_eq!(notify_characteristic(&chars[..2]), Err(MissingChar::Notify));
    assert_eq!(write_characteristic(&[]), Err(MissingChar::Write));
    assert_eq!(MissingChar::Notify.message(), "Notify characteristic not found");
    assert_eq!(MissingChar::Write.message(), "Write characteristic not found");
}

#[test]
fn gatt_services_are_listed() {
    let ch = |uuid, all| GattCharacteristic {
        uuid,
        read: all,
        write: true,
        write_without_response: all,
        notify: all,
        indicate: all,
    };
    let lines = print_gatt_services(&[
        GattService {
            uuid: ADVERTISED_SERVICE,
            primary: true,
            characteristics: vec![ch(WRITE_CHAR, false), ch(NOTIFY_CHAR, true)],
        },
        GattService { uuid: [0xAB; 16], primary: false, characteristics: vec![] },
    ]);
    assert_eq!(
        lines,
        vec![
            "  Service 0000ff09-0000-1000-8000-00805f9b34fb  true",
            "    Char  8c850002-0302-41c5-b46e-cf057c562025  [write]",
            "    Char  8c850003-0302-41c5-b46e-cf057c562025  [read,write,write-no-resp,notify,indicate]",
            "  Service abababab-abab-abab-abab-abababababab  false",
        ]
    );
}

#[test]
fn power_stations_are_found() {
    assert_eq!(find_anker_device(&[]), None);
    assert_eq!(find_anker_device(&[None, Some(vec![[1; 16]])]), None);
    assert_eq!(
        find_anker_device(&[None, Some(vec![]), Some(vec![[1; 16], ADVERTISED_SERVICE])]),
        Some(2)
    );
}

#[test]
fn scans_are_reported() {
    let report = scan_and_print(&[
        SeenDevice { id: "AA:BB".to_string(), rssi: None, name: None, services: vec![] },
        SeenDevice {
            id: "CC:DD".to_string(),
            rssi: Some(-71),
            name: Some("Station".to_string()),
            services: vec![ADVERTISED_SERVICE],
        },
        SeenDevice {
            id: "EE".to_string(),
            rssi: Some(-12345),
            name: None,
            services: vec![[0; 16], ADVERTISED_SERVICE],
        },
    ]);
    assert_eq!(
        report.lines,
        vec![
            "      AA:BB  RSSI=   0  None",
            "  *** CC:DD  RSSI= -71  Station",
            "          advertised: 0000ff09-0000-1000-8000-00805f9b34fb",
            "  *** EE  RSSI=-12345  None",
            "          advertised: 00000000-0000-0000-0000-000000000000",
            "          advertised: 0000ff09-0000-1000-8000-00805f9b34fb",
        ]
    );
    assert_eq!(report.found, vec![1, 2]);
    assert!(scan_and_print(&[]).lines.is_empty());
}

#[test]
fn scans_are_summed_up() {
    assert_eq!(scan_summary(&[]), "\nNo device advertising 0xff09 found.");
    let ids = ["AA:BB".to_string(), "C\"D".to_string()];
    assert_eq!(
        scan_summary(&ids),
        format!("\nTarget device(s) advertising 0xff09: {ids:?}")
    );
    assert_eq!(
        scan_summary(&ids),
        "\nTarget device(s) advertising 0xff09: [\"AA:BB\", \"C\\\"D\"]"
    );
    assert_eq!(
        scan_summary_of(&["x".to_string()]),
        "\nTarget device(s) advertising 0xff09: [x]"
    );
}

#[test]
fn devices_are_selected() {
    let ids = ["aa:bb".to_string(), "CC:dd".to_string(), "cc:DD".to_string()];
    assert_eq!(select_device(&ids, "Cc:Dd"), Ok(1));
    assert_eq!(
        select_device(&ids, "cc:d"),
        Err("Device 'cc:d' not found in scan".to_string())
    );
    assert_eq!(select_device(&["É".to_string()], "é").is_ok(), false);
    assert_eq!(auto_select(&[4, 2]), Ok(4));
    assert_eq!(auto_select(&[]), Err(NoDevice));
    assert_eq!(
        NoDevice.message(),
        "No Anker device found. Pass --mac <address> to specify one explicitly."
    );
}
