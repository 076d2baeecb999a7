//! Naming and showing keyboards.

use vstd::prelude::*;

use crate::engine::messages::{DeviceIdentity, DeviceInfo};
use crate::engine::LifecycleEvent;
use crate::input;
use crate::input::{contains, parse_number, same, to_lower};
use crate::text;
use crate::text::{join, push_dec, push_hex, push_text};

verus! {

/// The device that `spec` names by its id, or by its place in the list.
pub open spec fn exactly(spec: Seq<char>, devices: Seq<Seq<char>>) -> Option<Seq<char>> {
    if devices.contains(spec) {
        Some(spec)
    } else {
        match input::numeral(spec, 10, u64::MAX as nat) {
            Some(i) if i < devices.len() => Some(devices[i as int]),
            _ => None,
        }
    }
}

/// `needle` is part of the id or of the name, in any letter case.
pub open spec fn is_fragment(needle: Seq<char>, id: Seq<char>, name: Seq<char>) -> bool {
    input::within(input::lowered(id), input::lowered(needle)) || input::within(
        input::lowered(name),
        input::lowered(needle),
    )
}

/// Those of the first `n` devices that `spec` is a fragment of.
pub open spec fn matching(
    spec: Seq<char>,
    devices: Seq<Seq<char>>,
    names: Seq<Seq<char>>,
    n: int,
) -> Seq<Seq<char>>
    decreases n,
{
    if n <= 0 {
        Seq::empty()
    } else {
        let before = matching(spec, devices, names, n - 1);
        if is_fragment(spec, devices[n - 1], names[n - 1]) {
            before.push(devices[n - 1])
        } else {
            before
        }
    }
}

/// The devices to choose from.
pub open spec fn available(devices: Seq<Seq<char>>) -> Seq<char> {
    if devices.len() == 0 {
        "none connected"@
    } else {
        text::joined(devices, ", "@)
    }
}

/// The outcome of looking for the one device that `spec` is a fragment of.
pub open spec fn finds_fragment(
    r: Result<String, String>,
    spec: Seq<char>,
    devices: Seq<Seq<char>>,
    names: Seq<Seq<char>>,
) -> bool {
    let found = matching(spec, devices, names, devices.len() as int);
    if found.len() == 1 {
        r matches Ok(id) && id@ == found[0]
    } else if found.len() == 0 {
        r matches Err(m) && m@ == "no keyboard matching '"@ + spec + "' (available: "@ + available(devices) + ")"@
    } else {
        r matches Err(m) && m@ == "'"@ + spec + "' matches several keyboards: "@ + text::joined(found, ", "@)
            + " — be more specific"@
    }
}

/// Finds a device by its id, or by its place in the list.
pub fn resolve_exactly(spec: &str, devices: &[String]) -> (id: Option<String>)
    ensures
        match exactly(spec@, text::texts(devices@)) {
            Some(d) => id matches Some(s) && s@ == d,
            None => id is None,
        },
{
    let ghost all = text::texts(devices@);
    let mut i: usize = 0;
    while i < devices.len()
        invariant
            all == text::texts(devices@),
            i <= devices@.len(),
            forall|k: int| 0 <= k < i ==> all[k] != spec@,
        decreases devices@.len() - i,
    {
        if same(devices[i].as_str(), spec) {
            proof {
                assert(all[i as int] == spec@);
            }
            return Some(spec.to_owned());
        }
        i = i + 1;
    }
    match parse_number(spec, 10, u64::MAX) {
        Some(place) => if place < devices.len() as u64 {
            Some(devices[place as usize].clone())
        } else {
            None
        },
        None => None,
    }
}

/// The devices to choose from.
fn available_text(devices: &[String]) -> (out: String)
    ensures
        out@ == available(text::texts(devices@)),
{
    if devices.len() == 0 {
        "none connected".to_owned()
    } else {
        join(devices, ", ")
    }
}

/// Finds the one device whose id or product name has `spec` in it.
pub fn resolve_by_fragment(spec: &str, devices: &[String], names: &[String]) -> (r: Result<String, String>)
    requires
        names@.len() == devices@.len(),
    ensures
        finds_fragment(r, spec@, text::texts(devices@), text::texts(names@)),
{
    let needle: String = to_lower(spec);
    let ghost all = text::texts(devices@);
    let ghost called = text::texts(names@);
    let mut found: Vec<String> = Vec::new();
    let mut i: usize = 0;
    proof {
        assert(text::texts(found@) =~= Seq::<Seq<char>>::empty());
    }
    while i < devices.len()
        invariant
            needle@ == input::lowered(spec@),
            all == text::texts(devices@),
            called == text::texts(names@),
            names@.len() == devices@.len(),
            i <= devices@.len(),
            text::texts(found@) == matching(spec@, all, called, i as int),
        decreases devices@.len() - i,
    {
        let id: String = to_lower(devices[i].as_str());
        let name: String = to_lower(names[i].as_str());
        if contains(id.as_str(), needle.as_str()) || contains(name.as_str(), needle.as_str()) {
            push_text(&mut found, devices[i].clone());
        }
        i = i + 1;
    }
    proof {
        assert(text::texts(found@).len() == found@.len());
    }
    if found.len() == 1 {
        return Ok(found[0].clone());
    }
    if found.len() == 0 {
        let list: String = available_text(devices);
        return Err(
            "no keyboard matching '".to_owned().concat(spec).concat("' (available: ").concat(list.as_str()).concat(
                ")",
            ),
        );
    }
    let list: String = join(found.as_slice(), ", ");
    Err(
        "'".to_owned().concat(spec).concat("' matches several keyboards: ").concat(list.as_str()).concat(
            " — be more specific",
        ),
    )
}

/// Finds a device by its id, by its place in the list, or by a fragment that no
/// other device has. `names` are the devices' product names.
pub fn resolve_device(spec: &str, devices: &[String], names: &[String]) -> (r: Result<String, String>)
    requires
        names@.len() == devices@.len(),
    ensures
        match exactly(spec@, text::texts(devices@)) {
            Some(d) => r matches Ok(id) && id@ == d,
            None => finds_fragment(r, spec@, text::texts(devices@), text::texts(names@)),
        },
{
    match resolve_exactly(spec, devices) {
        Some(id) => Ok(id),
        None => resolve_by_fragment(spec, devices, names),
    }
}

/// Finds a device by its id or by its place in the list, and by nothing else.
pub fn resolve_listed(spec: &str, devices: &[String]) -> (r: Result<String, String>)
    ensures
        ({
            let all = text::texts(devices@);
            match exactly(spec@, all) {
                Some(d) => r matches Ok(id) && id@ == d,
                None => r matches Err(m) && m@ == "no device matching '"@ + spec@ + "' (available: "@ + available(
                    all,
                ) + ")"@,
            }
        }),
{
    match resolve_exactly(spec, devices) {
        Some(id) => Ok(id),
        None => {
            let list: String = available_text(devices);
            Err(
                "no device matching '".to_owned().concat(spec).concat("' (available: ").concat(
                    list.as_str(),
                ).concat(")"),
            )
        },
    }
}

/// `s`, or `instead` where `s` is empty.
pub open spec fn or_else(s: Seq<char>, instead: Seq<char>) -> Seq<char> {
    if s.len() == 0 {
        instead
    } else {
        s
    }
}

/// `s`, or `instead` where `s` is empty.
fn text_or(s: &str, instead: &str) -> (out: String)
    ensures
        out@ == or_else(s@, instead@),
{
    if s.unicode_len() == 0 {
        instead.to_owned()
    } else {
        s.to_owned()
    }
}

/// A USB id as vendor and product in hexadecimal.
pub open spec fn usb_text(vendor_id: u16, product_id: u16) -> Seq<char> {
    text::hex(vendor_id as nat, 4) + ":"@ + text::hex(product_id as nat, 4)
}

/// A USB id as vendor and product in hexadecimal.
fn to_usb_text(vendor_id: u16, product_id: u16) -> (out: String)
    ensures
        out@ == usb_text(vendor_id, product_id),
{
    let mut out: String = String::new();
    push_hex(&mut out, vendor_id as u32, 4);
    out.append(":");
    push_hex(&mut out, product_id as u32, 4);
    proof {
        assert(out@ =~= usb_text(vendor_id, product_id));
    }
    out
}

/// `n` in decimal.
fn decimal(n: u64) -> (out: String)
    ensures
        out@ == text::dec(n as nat),
{
    let mut out: String = String::new();
    push_dec(&mut out, n);
    proof {
        assert(out@ =~= text::dec(n as nat));
    }
    out
}

/// A device in one line; its bare id where its details are not to be had.
pub fn describe_device(id: &str, identity: &Option<DeviceIdentity>, info: &Option<DeviceInfo>) -> (out: String)
    ensures
        out@ == match (*identity, *info) {
            (Some(who), Some(what)) => id@ + " — "@ + or_else(who.product_name@, "unnamed"@) + " ["@ + usb_text(
                who.vendor_id,
                who.product_id,
            ) + "], "@ + text::dec(what.rows as nat) + "×"@ + text::dec(what.cols as nat) + " keys, "@ + text::dec(
                what.layer_count as nat,
            ) + " layers"@,
            _ => id@,
        },
{
    match (identity, info) {
        (Some(who), Some(what)) => {
            let name: String = text_or(who.product_name.as_str(), "unnamed");
            let usb: String = to_usb_text(who.vendor_id, who.product_id);
            let mut out: String = id.to_owned().concat(" — ").concat(name.as_str()).concat(" [").concat(
                usb.as_str(),
            ).concat("], ");
            push_dec(&mut out, what.rows as u64);
            out.append("×");
            push_dec(&mut out, what.cols as u64);
            out.append(" keys, ");
            push_dec(&mut out, what.layer_count as u64);
            out.append(" layers");
            out
        },
        _ => id.to_owned(),
    }
}

/// The lines of a device list, given one description for each device.
pub fn list_lines(descriptions: &[String]) -> (lines: Vec<String>)
    ensures
        descriptions@.len() == 0 ==> text::texts(lines@) == seq![
            "No keyboards connected (or none that clackd manages)."@,
        ],
        descriptions@.len() > 0 ==> lines@.len() == descriptions@.len() && forall|i: int|
            0 <= i < lines@.len() ==> (#[trigger] lines@[i])@ == text::dec(i as nat) + ": "@ + descriptions@[i]@,
{
    let mut lines: Vec<String> = Vec::new();
    if descriptions.len() == 0 {
        lines.push("No keyboards connected (or none that clackd manages).".to_owned());
        proof {
            assert(text::texts(lines@) =~= seq!["No keyboards connected (or none that clackd manages)."@]);
        }
        return lines;
    }
    let mut i: usize = 0;
    while i < descriptions.len()
        invariant
            i <= descriptions@.len(),
            lines@.len() == i,
            forall|k: int|
                0 <= k < i ==> (#[trigger] lines@[k])@ == text::dec(k as nat) + ": "@ + descriptions@[k]@,
        decreases descriptions@.len() - i,
    {
        let line: String = decimal(i as u64).concat(": ").concat(descriptions[i].as_str());
        lines.push(line);
        i = i + 1;
    }
    lines
}

/// The lines that tell everything of a device.
pub open spec fn told(id: Seq<char>, identity: DeviceIdentity, info: DeviceInfo) -> Seq<Seq<char>> {
    seq![
        id + ":"@,
        "  name:    "@ + or_else(identity.product_name@, "(unknown)"@),
        "  usb id:  "@ + usb_text(identity.vendor_id, identity.product_id),
        "  driver:  "@ + or_else(info.model@, "(unknown)"@),
        "  matrix:  "@ + text::dec(info.rows as nat) + " rows × "@ + text::dec(info.cols as nat) + " columns"@,
        "  layers:  "@ + text::dec(info.layer_count as nat),
    ]
}

/// Tells everything of a device.
pub fn info_lines(id: &str, identity: &DeviceIdentity, info: &DeviceInfo) -> (lines: Vec<String>)
    ensures
        text::texts(lines@) == told(id@, *identity, *info),
{
    let mut lines: Vec<String> = Vec::new();
    proof {
        assert(text::texts(lines@) =~= Seq::<Seq<char>>::empty());
    }
    push_text(&mut lines, id.to_owned().concat(":"));
    let name: String = text_or(identity.product_name.as_str(), "(unknown)");
    push_text(&mut lines, "  name:    ".to_owned().concat(name.as_str()));
    let usb: String = to_usb_text(identity.vendor_id, identity.product_id);
    push_text(&mut lines, "  usb id:  ".to_owned().concat(usb.as_str()));
    let model: String = text_or(info.model.as_str(), "(unknown)");
    push_text(&mut lines, "  driver:  ".to_owned().concat(model.as_str()));
    let rows: String = decimal(info.rows as u64);
    let cols: String = decimal(info.cols as u64);
    push_text(
        &mut lines,
        "  matrix:  ".to_owned().concat(rows.as_str()).concat(" rows × ").concat(cols.as_str()).concat(" columns"),
    );
    let layers: String = decimal(info.layer_count as u64);
    push_text(&mut lines, "  layers:  ".to_owned().concat(layers.as_str()));
    proof {
        assert(text::texts(lines@) =~= told(id@, *identity, *info));
    }
    lines
}

/// The lines that tell a device's USB identity.
pub open spec fn identified(id: Seq<char>, identity: DeviceIdentity) -> Seq<Seq<char>> {
    seq![
        "device "@ + id + ":"@,
        "  vendor:   0x"@ + text::hex(identity.vendor_id as nat, 4),
        "  product:  0x"@ + text::hex(identity.product_id as nat, 4),
        "  name:     "@ + or_else(identity.product_name@, "(unknown)"@),
    ]
}

/// Tells a device's USB identity.
pub fn identity_lines(id: &str, identity: &DeviceIdentity) -> (lines: Vec<String>)
    ensures
        text::texts(lines@) == identified(id@, *identity),
{
    let mut lines: Vec<String> = Vec::new();
    proof {
        assert(text::texts(lines@) =~= Seq::<Seq<char>>::empty());
    }
    push_text(&mut lines, "device ".to_owned().concat(id).concat(":"));
    let mut vendor: String = "  vendor:   0x".to_owned();
    push_hex(&mut vendor, identity.vendor_id as u32, 4);
    push_text(&mut lines, vendor);
    let mut product: String = "  product:  0x".to_owned();
    push_hex(&mut product, identity.product_id as u32, 4);
    push_text(&mut lines, product);
    let name: String = text_or(identity.product_name.as_str(), "(unknown)");
    push_text(&mut lines, "  name:     ".to_owned().concat(name.as_str()));
    proof {
        assert(text::texts(lines@) =~= identified(id@, *identity));
    }
    lines
}

/// What is said once a commit has been made.
pub fn committed_line(id: &str) -> (out: String)
    ensures
        out@ == id@ + ": pending changes saved to the keyboard"@,
{
    id.to_owned().concat(": pending changes saved to the keyboard")
}

/// Tells an event.
pub fn event_line(event: &LifecycleEvent) -> (out: String)
    ensures
        out@ == match *event {
            LifecycleEvent::DeviceAdded(id) => "keyboard connected:    "@ + id@,
            LifecycleEvent::DeviceRemoved(id) => "keyboard disconnected: "@ + id@,
            LifecycleEvent::LayoutUpdated(id) => "layout saved:          "@ + id@,
        },
{
    match event {
        LifecycleEvent::DeviceAdded(id) => "keyboard connected:    ".to_owned().concat(id.as_str()),
        LifecycleEvent::DeviceRemoved(id) => "keyboard disconnected: ".to_owned().concat(id.as_str()),
        LifecycleEvent::LayoutUpdated(id) => "layout saved:          ".to_owned().concat(id.as_str()),
    }
}

/// A full id is never ambiguous: it names its device, whatever the other devices
/// are called.
pub proof fn an_id_names_its_device(devices: Seq<Seq<char>>, i: int)
    requires
        0 <= i < devices.len(),
    ensures
        exactly(devices[i], devices) == Some(devices[i]),
{
    assert(devices.contains(devices[i]));
}

/// A number names the device at that place of the list, from 0 on, unless a device
/// has the number for its id; a number past the list names none.
pub proof fn a_place_names_its_device(devices: Seq<Seq<char>>, i: nat)
    requires
        i <= u64::MAX,
        !devices.contains(text::dec(i)),
    ensures
        i < devices.len() ==> exactly(text::dec(i), devices) == Some(devices[i as int]),
        i >= devices.len() ==> exactly(text::dec(i), devices) is None,
{
    input::decimals_read_back(i);
    let s = text::dec(i);
    input::numerals_are_digits(s, 10, u64::MAX as nat);
    assert(input::digit_value(s[0], 10) is Some);
}

/// What is neither an id nor a number is looked for in ids and names: in any letter
/// case, anywhere, and nowhere else.
pub proof fn fragments_are_parts(needle: Seq<char>, id: Seq<char>, name: Seq<char>, before: Seq<char>, after: Seq<char>)
    ensures
        input::lowered(id) == before + input::lowered(needle) + after ==> is_fragment(needle, id, name),
        input::lowered(name) == before + input::lowered(needle) + after ==> is_fragment(needle, id, name),
        is_fragment(needle, id, name) ==> input::within(input::lowered(id), input::lowered(needle)) || input::within(
            input::lowered(name),
            input::lowered(needle),
        ),
{
    input::within_is_part(input::lowered(id), input::lowered(needle));
    input::within_is_part(input::lowered(name), input::lowered(needle));
}

/// The devices that match are those of the list that have the fragment, in the
/// order of the list.
pub proof fn matches_are_in_order(spec: Seq<char>, devices: Seq<Seq<char>>, names: Seq<Seq<char>>, n: int)
    requires
        0 <= n < devices.len(),
        names.len() == devices.len(),
    ensures
        matching(spec, devices, names, 0).len() == 0,
        is_fragment(spec, devices[n], names[n]) ==> {
            let more = matching(spec, devices, names, n + 1);
            more == matching(spec, devices, names, n).push(devices[n])
        },
        !is_fragment(spec, devices[n], names[n]) ==> matching(spec, devices, names, n + 1) == matching(
            spec,
            devices,
            names,
            n,
        ),
{
}

/// A fragment that one device alone has finds that device; a fragment that none
/// has, or several have, finds none, and the complaint names the fragment.
pub proof fn one_match_is_found(
    r: Result<String, String>,
    spec: Seq<char>,
    devices: Seq<Seq<char>>,
    names: Seq<Seq<char>>,
    i: int,
)
    requires
        finds_fragment(r, spec, devices, names),
        names.len() == devices.len(),
        0 <= i < devices.len(),
    ensures
        is_fragment(spec, devices[i], names[i]) && (forall|j: int|
            0 <= j < devices.len() && j != i ==> !is_fragment(spec, #[trigger] devices[j], names[j])) ==> r is Ok
            && r->Ok_0@ == devices[i],
        (forall|j: int| 0 <= j < devices.len() ==> !is_fragment(spec, #[trigger] devices[j], names[j])) ==> r is Err,
        (exists|j: int|
            0 <= j < devices.len() && j != i && is_fragment(spec, #[trigger] devices[j], names[j])) && is_fragment(
            spec,
            devices[i],
            names[i],
        ) ==> r is Err,
        r is Err ==> input::within(r->Err_0@, spec),
{
    let n = devices.len() as int;
    let found = matching(spec, devices, names, n);
    if is_fragment(spec, devices[i], names[i]) {
        matches_count(spec, devices, names, i, n);
        if exists|j: int| 0 <= j < devices.len() && j != i && is_fragment(spec, #[trigger] devices[j], names[j]) {
            let j = choose|j: int| 0 <= j < devices.len() && j != i && is_fragment(spec, #[trigger] devices[j], names[j]);
            if i < j {
                two_matches_count(spec, devices, names, i, j, n);
            } else {
                two_matches_count(spec, devices, names, j, i, n);
            }
        }
    }
    if forall|j: int| 0 <= j < devices.len() ==> !is_fragment(spec, #[trigger] devices[j], names[j]) {
        no_match_counts(spec, devices, names, n);
    }
    if is_fragment(spec, devices[i], names[i]) && (forall|j: int|
        0 <= j < devices.len() && j != i ==> !is_fragment(spec, #[trigger] devices[j], names[j])) {
        one_match_counts(spec, devices, names, i, n);
    }
    if r is Err {
        if found.len() == 0 {
            let m = "no keyboard matching '"@ + spec + "' (available: "@ + available(devices) + ")"@;
            let at = "no keyboard matching '"@.len() as int;
            assert(m.subrange(at, at + spec.len()) =~= spec);
            assert(input::stands_at(r->Err_0@, spec, at));
        } else {
            let m = "'"@ + spec + "' matches several keyboards: "@ + text::joined(found, ", "@)
                + " — be more specific"@;
            let at = "'"@.len() as int;
            assert(m.subrange(at, at + spec.len()) =~= spec);
            assert(input::stands_at(r->Err_0@, spec, at));
        }
    }
}

proof fn no_match_counts(spec: Seq<char>, devices: Seq<Seq<char>>, names: Seq<Seq<char>>, n: int)
    requires
        0 <= n <= devices.len(),
        forall|j: int| 0 <= j < n ==> !is_fragment(spec, #[trigger] devices[j], names[j]),
    ensures
        matching(spec, devices, names, n).len() == 0,
    decreases n,
{
    if n > 0 {
        assert(!is_fragment(spec, devices[n - 1], names[n - 1]));
        no_match_counts(spec, devices, names, n - 1);
    }
}

proof fn one_match_counts(spec: Seq<char>, devices: Seq<Seq<char>>, names: Seq<Seq<char>>, i: int, n: int)
    requires
        0 <= i < n <= devices.len(),
        is_fragment(spec, devices[i], names[i]),
        forall|j: int| 0 <= j < n && j != i ==> !is_fragment(spec, #[trigger] devices[j], names[j]),
    ensures
        matching(spec, devices, names, n) == seq![devices[i]],
    decreases n,
{
    if i == n - 1 {
        no_match_counts(spec, devices, names, n - 1);
        assert(matching(spec, devices, names, n) =~= seq![devices[i]]);
    } else {
        assert(!is_fragment(spec, devices[n - 1], names[n - 1]));
        one_match_counts(spec, devices, names, i, n - 1);
    }
}

proof fn matches_count(spec: Seq<char>, devices: Seq<Seq<char>>, names: Seq<Seq<char>>, i: int, n: int)
    requires
        0 <= i < n <= devices.len(),
        is_fragment(spec, devices[i], names[i]),
    ensures
        matching(spec, devices, names, n).len() >= 1,
    decreases n,
{
    if i < n - 1 {
        matches_count(spec, devices, names, i, n - 1);
    }
}

proof fn two_matches_count(
    spec: Seq<char>,
    devices: Seq<Seq<char>>,
    names: Seq<Seq<char>>,
    i: int,
    j: int,
    n: int,
)
    requires
        0 <= i < j < n <= devices.len(),
        is_fragment(spec, devices[i], names[i]),
        is_fragment(spec, devices[j], names[j]),
    ensures
        matching(spec, devices, names, n).len() >= 2,
    decreases n,
{
    if j < n - 1 {
        two_matches_count(spec, devices, names, i, j, n - 1);
    } else {
        matches_count(spec, devices, names, i, n - 1);
    }
}

/// A USB id is shown as two numbers of four hexadecimal digits, vendor first.
pub proof fn usb_ids_are_shown_in_hexadecimal(vendor_id: u16, product_id: u16)
    ensures
        ({
            let s = usb_text(vendor_id, product_id);
            &&& s.len() == 9
            &&& s[4] == ':'
            &&& input::digits_value(s.take(4), 16) == Some(vendor_id as nat)
            &&& input::digits_value(s.skip(5), 16) == Some(product_id as nat)
        }),
{
    reveal_strlit(":");
    input::hexadecimals_read_back(vendor_id as nat, 4);
    input::hexadecimals_read_back(product_id as nat, 4);
    let s = usb_text(vendor_id, product_id);
    assert(s.take(4) =~= text::hex(vendor_id as nat, 4));
    assert(s.skip(5) =~= text::hex(product_id as nat, 4));
}

/// Everything that is told of a device is its own: each line ends in what it is
/// about, and what is not known is said to be unknown.
pub proof fn devices_are_told_in_full(id: Seq<char>, identity: DeviceIdentity, info: DeviceInfo)
    ensures
        ({
            let t = told(id, identity, info);
            &&& t.len() == 6
            &&& t[0] == id + ":"@
            &&& t[1] == "  name:    "@ + (if identity.product_name@.len() > 0 {
                identity.product_name@
            } else {
                "(unknown)"@
            })
            &&& t[2] == "  usb id:  "@ + usb_text(identity.vendor_id, identity.product_id)
            &&& t[3] == "  driver:  "@ + (if info.model@.len() > 0 {
                info.model@
            } else {
                "(unknown)"@
            })
            &&& t[4] == "  matrix:  "@ + text::dec(info.rows as nat) + " rows × "@ + text::dec(info.cols as nat)
                + " columns"@
            &&& t[5] == "  layers:  "@ + text::dec(info.layer_count as nat)
        }),
        ({
            let t = identified(id, identity);
            &&& t.len() == 4
            &&& t[0] == "device "@ + id + ":"@
            &&& t[1] == "  vendor:   0x"@ + text::hex(identity.vendor_id as nat, 4)
            &&& t[2] == "  product:  0x"@ + text::hex(identity.product_id as nat, 4)
            &&& t[3] == "  name:     "@ + (if identity.product_name@.len() > 0 {
                identity.product_name@
            } else {
                "(unknown)"@
            })
        }),
{
}

/// The devices to choose from are listed with commas between them, or it is said
/// that there are none.
pub proof fn choices_are_listed(first: Seq<char>, rest: Seq<Seq<char>>)
    ensures
        available(Seq::<Seq<char>>::empty()) == "none connected"@,
        available(seq![first]) == first,
        rest.len() > 0 ==> available(seq![first] + rest) == first + ", "@ + available(rest),
{
    text::joining_puts_separators_between(first, rest, ", "@);
    assert(seq![first] + Seq::<Seq<char>>::empty() =~= seq![first]);
}

} // verus!
