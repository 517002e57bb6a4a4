//! Choosing devices and characteristics, and what is printed of them.
use uuid::Uuid;
use vstd::prelude::*;

use crate::protocol::{ADVERTISED_SERVICE_UUID, NOTIFY_CHAR_UUID, WRITE_CHAR_UUID};
use crate::text::{chars_of, push_line, push_signed, quoted};

verus! {

use crate::text::{quoted_text, signed_text, texts_of};

// ---------------------------------------------------------------------------
// UUIDs
// ---------------------------------------------------------------------------

/// Error of `Uuid::parse_str`: the text is no UUID.
#[verifier::external_type_specification]
#[verifier::external_body]
pub struct ExUuidError(uuid::Error);

/// The lower-case hexadecimal digit for a value below sixteen.
pub open spec fn lower_digit(n: int) -> char {
    if n < 10 {
        (48 + n) as char
    } else {
        (87 + n) as char
    }
}

/// The bytes as pairs of lower-case hexadecimal digits.
pub open spec fn lower_hex(b: Seq<u8>) -> Seq<char> {
    Seq::new(
        2 * b.len(),
        |i: int|
            if i % 2 == 0 {
                lower_digit(b[i / 2] as int / 16)
            } else {
                lower_digit(b[i / 2] as int % 16)
            },
    )
}

/// The hyphenated form of a UUID, from its sixteen bytes.
pub open spec fn uuid_text(b: Seq<u8>) -> Seq<char> {
    lower_hex(b.subrange(0, 4)) + seq!['-'] + lower_hex(b.subrange(4, 6)) + seq!['-'] + lower_hex(
        b.subrange(6, 8),
    ) + seq!['-'] + lower_hex(b.subrange(8, 10)) + seq!['-'] + lower_hex(b.subrange(10, 16))
}

/// Calls `Uuid::parse_str`. Claimed of it: the hyphenated form of sixteen bytes is read as those
/// bytes. What it makes of other texts is left open.
#[verifier::external_body]
fn parse_uuid(text: &str) -> (r: Result<[u8; 16], uuid::Error>)
    ensures
        forall|b: [u8; 16]| text@ == #[trigger] uuid_text(b@) ==> r is Ok && r->Ok_0@ == b@,
{
    Uuid::parse_str(text).map(|u| u.into_bytes())
}

/// Calls `Uuid::from_bytes` and its `to_string`. Claimed of them: the text is the hyphenated
/// form with lower-case digits.
#[verifier::external_body]
fn show_uuid(b: &[u8; 16]) -> (r: String)
    ensures
        r@ == uuid_text(b@),
{
    Uuid::from_bytes(*b).to_string()
}

/// The bytes of `ADVERTISED_SERVICE_UUID`.
pub const ADVERTISED_SERVICE: [u8; 16] = [
    0x00, 0x00, 0xFF, 0x09, 0x00, 0x00, 0x10, 0x00, 0x80, 0x00, 0x00, 0x80, 0x5F, 0x9B, 0x34, 0xFB,
];

/// The bytes of `WRITE_CHAR_UUID`.
pub const WRITE_CHAR: [u8; 16] = [
    0x8C, 0x85, 0x00, 0x02, 0x03, 0x02, 0x41, 0xC5, 0xB4, 0x6E, 0xCF, 0x05, 0x7C, 0x56, 0x20, 0x25,
];

/// The bytes of `NOTIFY_CHAR_UUID`.
pub const NOTIFY_CHAR: [u8; 16] = [
    0x8C, 0x85, 0x00, 0x03, 0x03, 0x02, 0x41, 0xC5, 0xB4, 0x6E, 0xCF, 0x05, 0x7C, 0x56, 0x20, 0x25,
];

/// The texts of the three UUIDs are the hyphenated forms of their bytes.
pub proof fn law_uuid_texts()
    ensures
        ADVERTISED_SERVICE_UUID@ == uuid_text(ADVERTISED_SERVICE@),
        WRITE_CHAR_UUID@ == uuid_text(WRITE_CHAR@),
        NOTIFY_CHAR_UUID@ == uuid_text(NOTIFY_CHAR@),
{
    reveal_strlit("0000ff09-0000-1000-8000-00805f9b34fb");
    reveal_strlit("8c850002-0302-41c5-b46e-cf057c562025");
    reveal_strlit("8c850003-0302-41c5-b46e-cf057c562025");
    assert(ADVERTISED_SERVICE_UUID@ =~= uuid_text(ADVERTISED_SERVICE@));
    assert(WRITE_CHAR_UUID@ =~= uuid_text(WRITE_CHAR@));
    assert(NOTIFY_CHAR_UUID@ =~= uuid_text(NOTIFY_CHAR@));
}

/// The UUID of the advertised service.
pub fn advertised_service() -> (r: [u8; 16])
    ensures
        r@ == ADVERTISED_SERVICE@,
{
    proof {
        law_uuid_texts();
    }
    parse_uuid(ADVERTISED_SERVICE_UUID).unwrap()
}

/// The UUID of the characteristic that commands are written to.
pub fn write_char() -> (r: [u8; 16])
    ensures
        r@ == WRITE_CHAR@,
{
    proof {
        law_uuid_texts();
    }
    parse_uuid(WRITE_CHAR_UUID).unwrap()
}

/// The UUID of the characteristic that notifications arrive on.
pub fn notify_char() -> (r: [u8; 16])
    ensures
        r@ == NOTIFY_CHAR@,
{
    proof {
        law_uuid_texts();
    }
    parse_uuid(NOTIFY_CHAR_UUID).unwrap()
}

fn same_uuid(a: &[u8; 16], b: &[u8; 16]) -> (r: bool)
    ensures
        r == (a@ == b@),
{
    let mut i: usize = 0;
    while i < 16
        invariant
            i <= 16,
            a@.take(i as int) == b@.take(i as int),
        decreases 16 - i,
    {
        if a[i] != b[i] {
            assert(a@[i as int] != b@[i as int]);
            return false;
        }
        i += 1;
        assert(a@.take(i as int) =~= b@.take(i as int));
    }
    assert(a@.take(16) =~= a@);
    assert(b@.take(16) =~= b@);
    true
}

/// `at` is the first index at which `wanted` stands.
pub open spec fn first_at(uuids: Seq<[u8; 16]>, wanted: Seq<u8>, at: int) -> bool {
    &&& 0 <= at < uuids.len()
    &&& uuids[at]@ == wanted
    &&& forall|i: int| 0 <= i < at ==> (#[trigger] uuids[i])@ != wanted
}

/// Whether `wanted` occurs.
pub open spec fn occurs(uuids: Seq<[u8; 16]>, wanted: Seq<u8>) -> bool {
    exists|i: int| 0 <= i < uuids.len() && (#[trigger] uuids[i])@ == wanted
}

fn position(uuids: &[[u8; 16]], wanted: &[u8; 16]) -> (r: Option<usize>)
    ensures
        r is Some <==> occurs(uuids@, wanted@),
        r matches Some(at) ==> first_at(uuids@, wanted@, at as int),
{
    let count: usize = uuids.len();
    let mut i: usize = 0;
    while i < count
        invariant
            i <= count,
            count == uuids@.len(),
            forall|j: int| 0 <= j < i ==> (#[trigger] uuids@[j])@ != wanted@,
        decreases count - i,
    {
        if same_uuid(&uuids[i], wanted) {
            assert(uuids@[i as int]@ == wanted@);
            return Some(i);
        }
        i += 1;
    }
    None
}

// ---------------------------------------------------------------------------
// Characteristics
// ---------------------------------------------------------------------------

/// A characteristic that the device does not have.
#[derive(Debug, Clone, Copy, PartialEq, Eq, Structural)]
pub enum MissingChar {
    Notify,
    Write,
}

impl MissingChar {
    /// The text of the error.
    pub fn message(&self) -> (r: &'static str)
        ensures
            r@ == match *self {
                MissingChar::Notify => "Notify characteristic not found"@,
                MissingChar::Write => "Write characteristic not found"@,
            },
    {
        match self {
            MissingChar::Notify => "Notify characteristic not found",
            MissingChar::Write => "Write characteristic not found",
        }
    }
}

/// Which of the device's characteristics notifications arrive on.
pub fn notify_characteristic(chars: &[[u8; 16]]) -> (r: Result<usize, MissingChar>)
    ensures
        r is Ok <==> occurs(chars@, NOTIFY_CHAR@),
        r matches Ok(at) ==> first_at(chars@, NOTIFY_CHAR@, at as int),
        r matches Err(e) ==> e == MissingChar::Notify,
        r matches Ok(at) ==> at < chars@.len() && chars@[at as int]@ == NOTIFY_CHAR@ && forall|i: int|
            0 <= i < at ==> (#[trigger] chars@[i])@ != NOTIFY_CHAR@,
        r is Err ==> forall|i: int|
            0 <= i < chars@.len() ==> (#[trigger] chars@[i])@ != NOTIFY_CHAR@,
{
    match position(chars, &notify_char()) {
        Some(at) => Ok(at),
        None => Err(MissingChar::Notify),
    }
}

/// Which of the device's characteristics commands are written to.
pub fn write_characteristic(chars: &[[u8; 16]]) -> (r: Result<usize, MissingChar>)
    ensures
        r is Ok <==> occurs(chars@, WRITE_CHAR@),
        r matches Ok(at) ==> first_at(chars@, WRITE_CHAR@, at as int),
        r matches Err(e) ==> e == MissingChar::Write,
        r matches Ok(at) ==> at < chars@.len() && chars@[at as int]@ == WRITE_CHAR@ && forall|i: int|
            0 <= i < at ==> (#[trigger] chars@[i])@ != WRITE_CHAR@,
        r is Err ==> forall|i: int|
            0 <= i < chars@.len() ==> (#[trigger] chars@[i])@ != WRITE_CHAR@,
{
    match position(chars, &write_char()) {
        Some(at) => Ok(at),
        None => Err(MissingChar::Write),
    }
}

/// A characteristic, as far as it is printed.
pub struct GattCharacteristic {
    pub uuid: [u8; 16],
    pub read: bool,
    pub write: bool,
    pub write_without_response: bool,
    pub notify: bool,
    pub indicate: bool,
}

/// A service, as far as it is printed.
pub struct GattService {
    pub uuid: [u8; 16],
    pub primary: bool,
    pub characteristics: Vec<GattCharacteristic>,
}

/// `list` with `word` behind it, if `wanted`; a comma goes before any but the first word.
pub open spec fn listed(list: Seq<char>, word: Seq<char>, wanted: bool) -> Seq<char> {
    if !wanted {
        list
    } else if list.len() == 0 {
        word
    } else {
        list + seq![','] + word
    }
}

/// The names of the properties of a characteristic, with commas between them.
pub open spec fn property_text(ch: GattCharacteristic) -> Seq<char> {
    let list = Seq::<char>::empty();
    let list = listed(list, "read"@, ch.read);
    let list = listed(list, "write"@, ch.write);
    let list = listed(list, "write-no-resp"@, ch.write_without_response);
    let list = listed(list, "notify"@, ch.notify);
    listed(list, "indicate"@, ch.indicate)
}

/// The line of a characteristic.
pub open spec fn characteristic_line(ch: GattCharacteristic) -> Seq<char> {
    "    Char  "@ + uuid_text(ch.uuid@) + "  ["@ + property_text(ch) + "]"@
}

/// The line of a service.
pub open spec fn service_line(service: GattService) -> Seq<char> {
    "  Service "@ + uuid_text(service.uuid@) + "  "@ + if service.primary {
        "true"@
    } else {
        "false"@
    }
}

/// The lines of a service and of its characteristics.
pub open spec fn service_lines(service: GattService) -> Seq<Seq<char>> {
    seq![service_line(service)] + service.characteristics@.map_values(
        |ch: GattCharacteristic| characteristic_line(ch),
    )
}

/// The lines of all services.
pub open spec fn gatt_lines(services: Seq<GattService>) -> Seq<Seq<char>>
    decreases services.len(),
{
    if services.len() == 0 {
        Seq::empty()
    } else {
        gatt_lines(services.drop_last()) + service_lines(services.last())
    }
}

fn push_listed(list: &mut String, word: &str, wanted: bool)
    ensures
        final(list)@ == listed(old(list)@, word@, wanted),
{
    if wanted {
        if list.as_str().is_empty() {
            list.append(word);
            assert(list@ =~= word@);
        } else {
            list.push(',');
            list.append(word);
            assert(list@ =~= old(list)@ + seq![','] + word@);
        }
    }
}

fn show_characteristic(ch: &GattCharacteristic) -> (r: String)
    ensures
        r@ == characteristic_line(*ch),
{
    let mut list = String::new();
    push_listed(&mut list, "read", ch.read);
    push_listed(&mut list, "write", ch.write);
    push_listed(&mut list, "write-no-resp", ch.write_without_response);
    push_listed(&mut list, "notify", ch.notify);
    push_listed(&mut list, "indicate", ch.indicate);
    let mut r = String::new();
    r.append("    Char  ");
    r.append(show_uuid(&ch.uuid).as_str());
    r.append("  [");
    r.append(list.as_str());
    r.append("]");
    assert(r@ =~= characteristic_line(*ch));
    r
}

/// The lines that are printed of the services and characteristics of a device.
pub fn print_gatt_services(services: &[GattService]) -> (lines: Vec<String>)
    ensures
        texts_of(lines@) == gatt_lines(services@),
{
    let mut lines: Vec<String> = Vec::new();
    let count: usize = services.len();
    let mut i: usize = 0;
    assert(texts_of(lines@) =~= gatt_lines(services@.take(0)));
    while i < count
        invariant
            i <= count,
            count == services@.len(),
            texts_of(lines@) == gatt_lines(services@.take(i as int)),
        decreases count - i,
    {
        let service = &services[i];
        let ghost before = texts_of(lines@);
        let mut line = String::new();
        line.append("  Service ");
        line.append(show_uuid(&service.uuid).as_str());
        line.append("  ");
        line.append(
            if service.primary {
                "true"
            } else {
                "false"
            },
        );
        assert(line@ =~= service_line(*service));
        let ghost first = line@;
        push_line(&mut lines, line);
        let chars: usize = service.characteristics.len();
        let ghost shown = service.characteristics@.map_values(
            |ch: GattCharacteristic| characteristic_line(ch),
        );
        let mut j: usize = 0;
        assert(texts_of(lines@) =~= before + seq![first] + shown.take(0));
        while j < chars
            invariant
                j <= chars,
                chars == service.characteristics@.len(),
                shown == service.characteristics@.map_values(
                    |ch: GattCharacteristic| characteristic_line(ch),
                ),
                texts_of(lines@) == before + seq![first] + shown.take(j as int),
            decreases chars - j,
        {
            push_line(&mut lines, show_characteristic(&service.characteristics[j]));
            assert(shown.take(j + 1) =~= shown.take(j as int).push(shown[j as int]));
            j += 1;
            assert(texts_of(lines@) =~= before + seq![first] + shown.take(j as int));
        }
        proof {
            assert(shown.take(chars as int) =~= shown);
            assert(services@.take(i + 1).drop_last() =~= services@.take(i as int));
            assert(texts_of(lines@) =~= before + service_lines(*service));
        }
        i += 1;
    }
    assert(services@.take(count as int) =~= services@);
    lines
}

// ---------------------------------------------------------------------------
// Devices
// ---------------------------------------------------------------------------

/// A device nearby, as far as it is looked at.
pub struct SeenDevice {
    pub id: String,
    pub rssi: Option<i16>,
    pub name: Option<String>,
    pub services: Vec<[u8; 16]>,
}

/// Whether services are those of a power station.
pub open spec fn is_target(services: Seq<[u8; 16]>) -> bool {
    occurs(services, ADVERTISED_SERVICE@)
}

/// Whether the services of a device are known and are those of a power station.
pub open spec fn known_target(services: Option<Vec<[u8; 16]>>) -> bool {
    services matches Some(s) && is_target(s@)
}

/// The first device that advertises the service, among devices whose services are known or
/// not.
pub fn find_anker_device(seen: &[Option<Vec<[u8; 16]>>]) -> (r: Option<usize>)
    ensures
        r matches Some(at) ==> at < seen@.len() && known_target(seen@[at as int]) && forall|i: int|
            0 <= i < at ==> !known_target(#[trigger] seen@[i]),
        r is None ==> forall|i: int| 0 <= i < seen@.len() ==> !known_target(#[trigger] seen@[i]),
        r matches Some(at) ==> seen@[at as int] is Some && exists|j: int|
            0 <= j < seen@[at as int]->0@.len() && (#[trigger] seen@[at as int]->0@[j])@
                == ADVERTISED_SERVICE@,
        forall|i: int, j: int|
            0 <= i < seen@.len() && (r matches Some(at) ==> i < at) && seen@[i] is Some && 0 <= j
                < seen@[i]->0@.len() ==> (#[trigger] seen@[i]->0@[j])@ != ADVERTISED_SERVICE@,
{
    let target: [u8; 16] = advertised_service();
    let count: usize = seen.len();
    let mut i: usize = 0;
    while i < count
        invariant
            i <= count,
            count == seen@.len(),
            target@ == ADVERTISED_SERVICE@,
            forall|j: int| 0 <= j < i ==> !known_target(#[trigger] seen@[j]),
        decreases count - i,
    {
        if let Some(services) = &seen[i] {
            if position(services.as_slice(), &target).is_some() {
                return Some(i);
            }
        }
        i += 1;
    }
    None
}

/// `text` with blanks in front of it, up to the given width.
pub open spec fn right_aligned(text: Seq<char>, width: nat) -> Seq<char> {
    if text.len() < width {
        Seq::new((width - text.len()) as nat, |i: int| ' ') + text
    } else {
        text
    }
}

/// The line of a device.
pub open spec fn device_line(device: SeenDevice) -> Seq<char> {
    "  "@ + (if is_target(device.services@) {
        "***"@
    } else {
        "   "@
    }) + " "@ + device.id@ + "  RSSI="@ + right_aligned(
        signed_text(
            match device.rssi {
                Some(rssi) => rssi as int,
                None => 0,
            },
        ),
        4,
    ) + "  "@ + (match device.name {
        Some(name) => name@,
        None => "None"@,
    })
}

/// The lines of a device and of the services it advertises.
pub open spec fn device_lines(device: SeenDevice) -> Seq<Seq<char>> {
    seq![device_line(device)] + device.services@.map_values(
        |uuid: [u8; 16]| "          advertised: "@ + uuid_text(uuid@),
    )
}

/// The lines of all devices.
pub open spec fn scan_lines(devices: Seq<SeenDevice>) -> Seq<Seq<char>>
    decreases devices.len(),
{
    if devices.len() == 0 {
        Seq::empty()
    } else {
        scan_lines(devices.drop_last()) + device_lines(devices.last())
    }
}

/// The indices of the devices that are power stations.
pub open spec fn targets(devices: Seq<SeenDevice>) -> Seq<int>
    decreases devices.len(),
{
    if devices.len() == 0 {
        Seq::empty()
    } else if is_target(devices.last().services@) {
        targets(devices.drop_last()).push(devices.len() - 1)
    } else {
        targets(devices.drop_last())
    }
}

/// What a scan for devices has found.
pub struct ScanReport {
    /// The lines that are printed.
    pub lines: Vec<String>,
    /// The indices of the power stations.
    pub found: Vec<usize>,
}

fn push_right_aligned(r: &mut String, text: &str, len: usize, width: usize)
    requires
        len == text@.len(),
    ensures
        final(r)@ == old(r)@ + right_aligned(text@, width as nat),
{
    let ghost start = r@;
    let mut i: usize = len;
    while i < width
        invariant
            len <= i,
            i <= width || i == len,
            r@ == start + Seq::new((i - len) as nat, |k: int| ' '),
        decreases width - i,
    {
        r.push(' ');
        i += 1;
        assert(r@ =~= start + Seq::new((i - len) as nat, |k: int| ' '));
    }
    r.append(text);
    assert(r@ =~= start + right_aligned(text@, width as nat));
}

fn show_device(device: &SeenDevice, target: bool) -> (r: String)
    requires
        target == is_target(device.services@),
    ensures
        r@ == device_line(*device),
{
    let mut r = String::new();
    r.append("  ");
    r.append(
        if target {
            "***"
        } else {
            "   "
        },
    );
    r.append(" ");
    r.append(device.id.as_str());
    r.append("  RSSI=");
    let rssi: i64 = match device.rssi {
        Some(rssi) => rssi as i64,
        None => 0,
    };
    let mut number = String::new();
    push_signed(&mut number, rssi);
    let digits: Vec<char> = chars_of(number.as_str());
    push_right_aligned(&mut r, number.as_str(), digits.len(), 4);
    r.append("  ");
    match &device.name {
        Some(name) => {
            r.append(name.as_str());
        },
        None => {
            r.append("None");
        },
    }
    assert(r@ =~= device_line(*device));
    r
}

/// What is printed of the devices nearby, and which of them are power stations.
pub fn scan_and_print(devices: &[SeenDevice]) -> (r: ScanReport)
    ensures
        texts_of(r.lines@) == scan_lines(devices@),
        r.found@.map_values(|i: usize| i as int) == targets(devices@),
        forall|k: int|
            0 <= k < r.found@.len() ==> (#[trigger] r.found@[k]) < devices@.len() && exists|j: int|
                0 <= j < devices@[r.found@[k] as int].services@.len() && (
                #[trigger] devices@[r.found@[k] as int].services@[j])@ == ADVERTISED_SERVICE@,
{
    let target: [u8; 16] = advertised_service();
    let mut lines: Vec<String> = Vec::new();
    let mut found: Vec<usize> = Vec::new();
    let count: usize = devices.len();
    let mut i: usize = 0;
    assert(texts_of(lines@) =~= scan_lines(devices@.take(0)));
    assert(found@.map_values(|k: usize| k as int) =~= targets(devices@.take(0)));
    while i < count
        invariant
            i <= count,
            count == devices@.len(),
            target@ == ADVERTISED_SERVICE@,
            texts_of(lines@) == scan_lines(devices@.take(i as int)),
            found@.map_values(|k: usize| k as int) == targets(devices@.take(i as int)),
        decreases count - i,
    {
        let device = &devices[i];
        let ghost before = texts_of(lines@);
        let ghost before_found = found@.map_values(|k: usize| k as int);
        let wanted: bool = position(device.services.as_slice(), &target).is_some();
        push_line(&mut lines, show_device(device, wanted));
        let ghost first = device_line(*device);
        let services: usize = device.services.len();
        let ghost shown = device.services@.map_values(
            |uuid: [u8; 16]| "          advertised: "@ + uuid_text(uuid@),
        );
        let mut j: usize = 0;
        assert(texts_of(lines@) =~= before + seq![first] + shown.take(0));
        while j < services
            invariant
                j <= services,
                services == device.services@.len(),
                shown == device.services@.map_values(
                    |uuid: [u8; 16]| "          advertised: "@ + uuid_text(uuid@),
                ),
                texts_of(lines@) == before + seq![first] + shown.take(j as int),
            decreases services - j,
        {
            let mut line = String::new();
            line.append("          advertised: ");
            line.append(show_uuid(&device.services[j]).as_str());
            assert(line@ =~= shown[j as int]);
            push_line(&mut lines, line);
            assert(shown.take(j + 1) =~= shown.take(j as int).push(shown[j as int]));
            j += 1;
            assert(texts_of(lines@) =~= before + seq![first] + shown.take(j as int));
        }
        if wanted {
            found.push(i);
        }
        proof {
            assert(shown.take(services as int) =~= shown);
            assert(devices@.take(i + 1).drop_last() =~= devices@.take(i as int));
            assert(texts_of(lines@) =~= before + device_lines(*device));
            if wanted {
                assert(found@.map_values(|k: usize| k as int) =~= before_found.push(i as int));
            }
        }
        i += 1;
    }
    proof {
        assert(devices@.take(count as int) =~= devices@);
        law_scan_finds_the_power_stations(devices@);
        let shown = found@.map_values(|k: usize| k as int);
        assert forall|k: int| 0 <= k < found@.len() implies (#[trigger] found@[k]) < devices@.len()
            && exists|j: int|
            0 <= j < devices@[found@[k] as int].services@.len() && (
            #[trigger] devices@[found@[k] as int].services@[j])@ == ADVERTISED_SERVICE@ by {
            assert(shown[k] == found@[k]);
            assert(targets(devices@).contains(shown[k]));
        }
    }
    ScanReport { lines, found }
}

/// Items with a comma and a blank between neighbours.
pub open spec fn comma_list(items: Seq<Seq<char>>) -> Seq<char>
    decreases items.len(),
{
    if items.len() == 0 {
        Seq::empty()
    } else if items.len() == 1 {
        items[0]
    } else {
        comma_list(items.drop_last()) + ", "@ + items.last()
    }
}

/// The line that closes a scan for devices, where `ids` are the identifiers of the power stations
/// as they are to be shown.
pub open spec fn summary_line(ids: Seq<Seq<char>>) -> Seq<char> {
    if ids.len() == 0 {
        "\nNo device advertising 0xff09 found."@
    } else {
        "\nTarget device(s) advertising 0xff09: ["@ + comma_list(ids) + "]"@
    }
}

/// The line that closes a scan for devices, where `shown` are the identifiers of the power
/// stations as they are to be shown.
pub fn scan_summary_of(shown: &[String]) -> (line: String)
    ensures
        line@ == summary_line(texts_of(shown@)),
{
    let ghost ids = texts_of(shown@);
    let count: usize = shown.len();
    let mut line = String::new();
    if count == 0 {
        line.append("\nNo device advertising 0xff09 found.");
        assert(line@ =~= summary_line(ids));
        return line;
    }
    line.append("\nTarget device(s) advertising 0xff09: [");
    let ghost head = line@;
    let mut i: usize = 0;
    assert(line@ =~= head + comma_list(ids.take(0)));
    while i < count
        invariant
            i <= count,
            count == shown@.len(),
            ids == texts_of(shown@),
            line@ == head + comma_list(ids.take(i as int)),
        decreases count - i,
    {
        if i > 0 {
            line.append(", ");
        }
        line.append(shown[i].as_str());
        proof {
            assert(ids.take(i + 1).drop_last() =~= ids.take(i as int));
            assert(ids.take(i + 1).last() == shown@[i as int]@);
            assert(line@ =~= head + comma_list(ids.take(i + 1)));
        }
        i += 1;
    }
    assert(ids.take(count as int) =~= ids);
    line.append("]");
    assert(line@ =~= summary_line(ids));
    line
}

/// The line that closes a scan for devices, with the identifiers of the power stations in quotes.
pub fn scan_summary(ids: &[String]) -> (line: String)
    ensures
        line@ == summary_line(texts_of(ids@).map_values(|id: Seq<char>| quoted_text(id))),
{
    let ghost wanted = texts_of(ids@).map_values(|id: Seq<char>| quoted_text(id));
    let count: usize = ids.len();
    let mut shown: Vec<String> = Vec::new();
    let mut i: usize = 0;
    assert(texts_of(shown@) =~= wanted.take(0));
    while i < count
        invariant
            i <= count,
            count == ids@.len(),
            wanted == texts_of(ids@).map_values(|id: Seq<char>| quoted_text(id)),
            texts_of(shown@) == wanted.take(i as int),
        decreases count - i,
    {
        push_line(&mut shown, quoted(ids[i].as_str()));
        assert(wanted.take(i + 1) =~= wanted.take(i as int).push(wanted[i as int]));
        i += 1;
    }
    assert(wanted.take(count as int) =~= wanted);
    scan_summary_of(shown.as_slice())
}

/// A character with ASCII capitals made small.
pub open spec fn ascii_lower(c: char) -> char {
    if 'A' <= c <= 'Z' {
        (c as u8 + 32) as char
    } else {
        c
    }
}

/// Whether two texts differ at most in the case of ASCII letters.
pub open spec fn same_ignoring_case(a: Seq<char>, b: Seq<char>) -> bool {
    a.map_values(|c: char| ascii_lower(c)) == b.map_values(|c: char| ascii_lower(c))
}

fn lower(c: char) -> (r: char)
    ensures
        r == ascii_lower(c),
{
    if 'A' <= c && c <= 'Z' {
        (c as u8 + 32) as char
    } else {
        c
    }
}

fn eq_ignore_case(a: &str, b: &str) -> (r: bool)
    ensures
        r == same_ignoring_case(a@, b@),
{
    let x: Vec<char> = chars_of(a);
    let y: Vec<char> = chars_of(b);
    let ghost small_a = a@.map_values(|c: char| ascii_lower(c));
    let ghost small_b = b@.map_values(|c: char| ascii_lower(c));
    if x.len() != y.len() {
        assert(small_a.len() != small_b.len());
        return false;
    }
    let count: usize = x.len();
    let mut i: usize = 0;
    while i < count
        invariant
            i <= count,
            count == x@.len(),
            count == y@.len(),
            x@ == a@,
            y@ == b@,
            small_a == a@.map_values(|c: char| ascii_lower(c)),
            small_b == b@.map_values(|c: char| ascii_lower(c)),
            forall|j: int| 0 <= j < i ==> #[trigger] small_a[j] == small_b[j],
        decreases count - i,
    {
        if lower(x[i]) != lower(y[i]) {
            assert(small_a[i as int] != small_b[i as int]);
            return false;
        }
        i += 1;
    }
    assert(small_a =~= small_b);
    true
}

/// What is said where no device has the wanted identifier.
pub open spec fn not_found_text(wanted: Seq<char>) -> Seq<char> {
    "Device '"@ + wanted + "' not found in scan"@
}

/// The first device with the wanted identifier, in whatever case it is written.
pub fn select_device(ids: &[String], wanted: &str) -> (r: Result<usize, String>)
    ensures
        r matches Ok(at) ==> at < ids@.len() && same_ignoring_case(ids@[at as int]@, wanted@)
            && forall|i: int|
            0 <= i < at ==> !same_ignoring_case((#[trigger] ids@[i])@, wanted@),
        r matches Err(e) ==> e@ == "Device '"@ + wanted@ + "' not found in scan"@,
        r matches Err(e) ==> e@ == not_found_text(wanted@) && forall|i: int|
            0 <= i < ids@.len() ==> !same_ignoring_case((#[trigger] ids@[i])@, wanted@),
{
    let count: usize = ids.len();
    let mut i: usize = 0;
    while i < count
        invariant
            i <= count,
            count == ids@.len(),
            forall|j: int| 0 <= j < i ==> !same_ignoring_case((#[trigger] ids@[j])@, wanted@),
        decreases count - i,
    {
        if eq_ignore_case(ids[i].as_str(), wanted) {
            return Ok(i);
        }
        i += 1;
    }
    let mut e = String::new();
    e.append("Device '");
    e.append(wanted);
    e.append("' not found in scan");
    assert(e@ =~= not_found_text(wanted@));
    Err(e)
}

/// No power station is nearby.
#[derive(Debug, Clone, Copy, PartialEq, Eq)]
pub struct NoDevice;

impl NoDevice {
    /// The text of the error.
    pub fn message(&self) -> (r: &'static str)
        ensures
            r@
                == "No Anker device found. Pass --mac <address> to specify one explicitly."@,
    {
        "No Anker device found. Pass --mac <address> to specify one explicitly."
    }
}

/// The device that is taken where none is asked for: the first power station.
pub fn auto_select(found: &[usize]) -> (r: Result<usize, NoDevice>)
    ensures
        r is Ok <==> found@.len() > 0,
        r matches Ok(at) ==> at == found@[0],
{
    if found.len() > 0 {
        Ok(found[0])
    } else {
        Err(NoDevice)
    }
}

// ---------------------------------------------------------------------------
// Laws
// ---------------------------------------------------------------------------

/// What a scan reports as power stations are exactly those devices that advertise the service,
/// in the order in which they were seen.
pub proof fn law_scan_finds_the_power_stations(devices: Seq<SeenDevice>)
    ensures
        forall|i: int|
            #[trigger] targets(devices).contains(i) <==> 0 <= i < devices.len() && is_target(
                devices[i].services@,
            ),
        forall|j: int, k: int|
            0 <= j < k < targets(devices).len() ==> #[trigger] targets(devices)[j]
                < #[trigger] targets(devices)[k],
    decreases devices.len(),
{
    let all = targets(devices);
    if devices.len() > 0 {
        let shorter = devices.drop_last();
        law_scan_finds_the_power_stations(shorter);
        let before = targets(shorter);
        assert forall|j: int| 0 <= j < before.len() implies 0 <= #[trigger] before[j]
            < devices.len() - 1 by {
            assert(before.contains(before[j]));
        }
        assert forall|i: int| #[trigger] all.contains(i) <==> 0 <= i < devices.len() && is_target(
            devices[i].services@,
        ) by {
            if i == devices.len() - 1 {
                if is_target(devices.last().services@) {
                    assert(all[all.len() - 1] == i);
                }
            } else {
                assert(before.contains(i) <==> 0 <= i < shorter.len() && is_target(
                    shorter[i].services@,
                ));
                if before.contains(i) {
                    let j = choose|j: int| 0 <= j < before.len() && before[j] == i;
                    assert(all[j] == i);
                }
                if all.contains(i) {
                    let j = choose|j: int| 0 <= j < all.len() && all[j] == i;
                    assert(before[j] == i);
                }
            }
        }
    }
}

/// Two texts count as the same exactly if they are equally long and each two characters at the same
/// place are equal, or are the same letter between A and Z, once capital and once small.
pub proof fn law_same_ignoring_case(a: Seq<char>, b: Seq<char>)
    ensures
        same_ignoring_case(a, b) <==> a.len() == b.len() && forall|i: int|
            0 <= i < a.len() ==> #[trigger] a[i] == b[i] || 'A' <= a[i] <= 'Z' && b[i] as int
                == a[i] as int + 32 || 'A' <= b[i] <= 'Z' && a[i] as int == b[i] as int + 32,
{
    let x = a.map_values(|c: char| ascii_lower(c));
    let y = b.map_values(|c: char| ascii_lower(c));
    if x == y {
        assert(x.len() == y.len());
        assert forall|i: int| 0 <= i < a.len() implies #[trigger] a[i] == b[i] || 'A' <= a[i]
            <= 'Z' && b[i] as int == a[i] as int + 32 || 'A' <= b[i] <= 'Z' && a[i] as int
            == b[i] as int + 32 by {
            assert(x[i] == y[i]);
        }
    }
    if a.len() == b.len() && forall|i: int|
        0 <= i < a.len() ==> #[trigger] a[i] == b[i] || 'A' <= a[i] <= 'Z' && b[i] as int
            == a[i] as int + 32 || 'A' <= b[i] <= 'Z' && a[i] as int == b[i] as int + 32 {
        assert forall|i: int| 0 <= i < x.len() implies #[trigger] x[i] == y[i] by {
            assert(a[i] == b[i] || 'A' <= a[i] <= 'Z' || 'A' <= b[i] <= 'Z');
        }
        assert(x =~= y);
    }
}

/// What is printed of a run of services is what is printed of each, one after the other. For one
/// service that is a line with its UUID and with whether it is primary, and then a line for each
/// characteristic, in their order.
pub proof fn law_gatt_lines(services: Seq<GattService>, service: GattService)
    ensures
        gatt_lines(Seq::empty()) == Seq::<Seq<char>>::empty(),
        ({
            let lines = gatt_lines(services.push(service));
            let before = gatt_lines(services).len() as int;
            let chars = service.characteristics@;
            &&& lines.len() == before + 1 + chars.len()
            &&& lines.take(before) == gatt_lines(services)
            &&& service.primary ==> lines[before] == "  Service "@ + uuid_text(service.uuid@)
                + "  "@ + "true"@
            &&& !service.primary ==> lines[before] == "  Service "@ + uuid_text(service.uuid@)
                + "  "@ + "false"@
            &&& forall|j: int|
                0 <= j < chars.len() ==> #[trigger] lines[before + 1 + j] == "    Char  "@
                    + uuid_text(chars[j].uuid@) + "  ["@ + property_text(chars[j]) + "]"@
        }),
{
    let all = services.push(service);
    assert(all.drop_last() =~= services);
    let lines = gatt_lines(all);
    let before = gatt_lines(services).len() as int;
    assert(lines.take(before) =~= gatt_lines(services));
    assert forall|j: int| 0 <= j < service.characteristics@.len() implies #[trigger] lines[before
        + 1 + j] == "    Char  "@ + uuid_text(service.characteristics@[j].uuid@) + "  ["@
        + property_text(service.characteristics@[j]) + "]"@ by {
        assert(lines[before + 1 + j] == service_lines(service)[1 + j]);
    }
    assert(lines[before] == service_lines(service)[0]);
}

/// The properties of a characteristic are named in a fixed order, each behind a comma but the
/// first: with a comma behind it, the list is the names of those that it has, each with a comma.
pub proof fn law_property_list(ch: GattCharacteristic)
    ensures
        ({
            let words = (if ch.read {
                "read"@ + seq![',']
            } else {
                Seq::empty()
            }) + (if ch.write {
                "write"@ + seq![',']
            } else {
                Seq::empty()
            }) + (if ch.write_without_response {
                "write-no-resp"@ + seq![',']
            } else {
                Seq::empty()
            }) + (if ch.notify {
                "notify"@ + seq![',']
            } else {
                Seq::empty()
            }) + (if ch.indicate {
                "indicate"@ + seq![',']
            } else {
                Seq::empty()
            });
            if words.len() == 0 {
                property_text(ch).len() == 0
            } else {
                property_text(ch) + seq![','] == words
            }
        }),
{
    reveal_strlit("read");
    reveal_strlit("write");
    reveal_strlit("write-no-resp");
    reveal_strlit("notify");
    reveal_strlit("indicate");
    let none = Seq::<char>::empty();
    let one = listed(none, "read"@, ch.read);
    let two = listed(one, "write"@, ch.write);
    let three = listed(two, "write-no-resp"@, ch.write_without_response);
    let four = listed(three, "notify"@, ch.notify);
    let w1 = none + if ch.read {
        "read"@ + seq![',']
    } else {
        Seq::empty()
    };
    lemma_listed(none, none, "read"@, ch.read);
    lemma_listed(one, w1, "write"@, ch.write);
    let w2 = w1 + if ch.write {
        "write"@ + seq![',']
    } else {
        Seq::empty()
    };
    lemma_listed(two, w2, "write-no-resp"@, ch.write_without_response);
    let w3 = w2 + if ch.write_without_response {
        "write-no-resp"@ + seq![',']
    } else {
        Seq::empty()
    };
    lemma_listed(three, w3, "notify"@, ch.notify);
    let w4 = w3 + if ch.notify {
        "notify"@ + seq![',']
    } else {
        Seq::empty()
    };
    lemma_listed(four, w4, "indicate"@, ch.indicate);
    assert(w1 =~= if ch.read {
        "read"@ + seq![',']
    } else {
        Seq::empty()
    });
}

proof fn lemma_listed(list: Seq<char>, words: Seq<char>, word: Seq<char>, wanted: bool)
    requires
        word.len() > 0,
        list.len() == 0 ==> words.len() == 0,
        list.len() > 0 ==> list + seq![','] == words,
    ensures
        ({
            let more = words + if wanted {
                word + seq![',']
            } else {
                Seq::empty()
            };
            let longer = listed(list, word, wanted);
            &&& longer.len() == 0 <==> more.len() == 0
            &&& longer.len() > 0 ==> longer + seq![','] == more
        }),
{
    let more = words + if wanted {
        word + seq![',']
    } else {
        Seq::empty()
    };
    let longer = listed(list, word, wanted);
    if longer.len() > 0 {
        assert(longer + seq![','] =~= more);
    }
    if list.len() > 0 {
        assert(words.len() == list.len() + 1);
    }
}

/// What is printed of a run of devices is what is printed of each, one after the other. For one
/// device that is a line with stars if it is a power station, with its identifier, its signal
/// strength, or zero, and its name, or `None`, and then a line for each service that it advertises.
pub proof fn law_scan_lines(devices: Seq<SeenDevice>, device: SeenDevice)
    ensures
        scan_lines(Seq::empty()) == Seq::<Seq<char>>::empty(),
        ({
            let lines = scan_lines(devices.push(device));
            let before = scan_lines(devices).len() as int;
            let services = device.services@;
            let rssi = if device.rssi is Some {
                device.rssi->0 as int
            } else {
                0
            };
            let name = if device.name is Some {
                device.name->0@
            } else {
                "None"@
            };
            let stars = if exists|i: int|
                0 <= i < services.len() && (#[trigger] services[i])@ == ADVERTISED_SERVICE@ {
                "***"@
            } else {
                "   "@
            };
            &&& lines.len() == before + 1 + services.len()
            &&& lines.take(before) == scan_lines(devices)
            &&& lines[before] == "  "@ + stars + " "@ + device.id@ + "  RSSI="@ + right_aligned(
                signed_text(rssi),
                4,
            ) + "  "@ + name
            &&& forall|j: int|
                0 <= j < services.len() ==> #[trigger] lines[before + 1 + j]
                    == "          advertised: "@ + uuid_text(services[j]@)
        }),
{
    let all = devices.push(device);
    assert(all.drop_last() =~= devices);
    let lines = scan_lines(all);
    let before = scan_lines(devices).len() as int;
    assert(lines.take(before) =~= scan_lines(devices));
    assert forall|j: int| 0 <= j < device.services@.len() implies #[trigger] lines[before + 1 + j]
        == "          advertised: "@ + uuid_text(device.services@[j]@) by {
        assert(lines[before + 1 + j] == device_lines(device)[1 + j]);
    }
    assert(lines[before] == device_lines(device)[0]);
}

/// An aligned text ends with the text itself, has only blanks before it, and is exactly as long as
/// the width, or as the text where that is longer.
pub proof fn law_right_aligned(text: Seq<char>, width: nat)
    ensures
        ({
            let shown = right_aligned(text, width);
            let blanks = shown.len() - text.len();
            &&& shown.len() == if text.len() < width {
                width
            } else {
                text.len()
            }
            &&& shown.skip(blanks) == text
            &&& forall|i: int| 0 <= i < blanks ==> #[trigger] shown[i] == ' '
        }),
{
    let shown = right_aligned(text, width);
    assert(shown.skip(shown.len() - text.len()) =~= text);
}

/// The line that closes a scan names the power stations, with a comma and a blank between them.
pub proof fn law_summary_line(ids: Seq<Seq<char>>, id: Seq<char>)
    ensures
        summary_line(Seq::empty()) == "\nNo device advertising 0xff09 found."@,
        summary_line(seq![id]) == "\nTarget device(s) advertising 0xff09: ["@ + id + "]"@,
        ids.len() > 0 ==> summary_line(ids.push(id)) == summary_line(ids).drop_last() + ", "@ + id
            + "]"@,
{
    reveal_strlit("]");
    if ids.len() > 0 {
        assert(ids.push(id).drop_last() =~= ids);
        assert(summary_line(ids).drop_last() =~= "\nTarget device(s) advertising 0xff09: ["@
            + comma_list(ids));
        assert(summary_line(ids.push(id)) =~= summary_line(ids).drop_last() + ", "@ + id + "]"@);
    }
}

} // verus!
