//! Onboard-profile sectors.
//!
//! A profile is a sector image: G-key bindings of four bytes each in three banks,
//! and a checksum over everything before it in the last two bytes.

use vstd::prelude::*;

use crate::hal::keymap::{Keymap, Slot};
use crate::hal::DriverError;
use crate::sorted::SortedMap;
use crate::text::{push_dec, push_hex};

verus! {

/// Offset of the first binding.
pub const GKEY_BANK_BASE: usize = 0x20;

/// Distance between banks.
pub const GKEY_BANK_STRIDE: usize = 0x40;

/// Bytes per binding.
pub const GKEY_ENTRY_LEN: usize = 4;

/// Banks in a profile, one for each layer.
pub const GKEY_BANKS: u8 = 3;

/// Bindings in a bank.
pub const GKEY_SLOTS_PER_BANK: u8 = 16;

/// The smallest sector that holds all banks and the checksum.
pub const MIN_SECTOR_LEN: usize = 226;

/// Binding of a key.
pub const BIND_TYPE_KEY: u8 = 0x80;

/// Binding to a HID usage with a modifier mask.
pub const BIND_SUBTYPE_HID_KEY: u8 = 0x02;

/// Vendor tag of compile errors.
pub const VENDOR: &'static str = "logitech";

/// One bit of the checksum: a shift, and the polynomial 0x1021 if a bit falls out.
pub open spec fn crc_bit(crc: u16) -> u16 {
    if crc & 0x8000 != 0 {
        (crc << 1) ^ 0x1021
    } else {
        crc << 1
    }
}

/// `n` bits of the checksum.
pub open spec fn crc_bits(crc: u16, n: nat) -> u16
    decreases n,
{
    if n == 0 {
        crc
    } else {
        crc_bit(crc_bits(crc, (n - 1) as nat))
    }
}

/// CRC-CCITT with initial value 0xFFFF and no final xor.
pub open spec fn crc_of(data: Seq<u8>) -> u16
    decreases data.len(),
{
    if data.len() == 0 {
        0xFFFF
    } else {
        crc_bits(crc_of(data.drop_last()) ^ ((data.last() as u16) << 8), 8)
    }
}

/// CRC-CCITT with initial value 0xFFFF and no final xor.
pub fn crc_ccitt(data: &[u8]) -> (crc: u16)
    ensures
        crc == crc_of(data@),
{
    let mut crc: u16 = 0xFFFF;
    let mut i: usize = 0;
    while i < data.len()
        invariant
            i <= data@.len(),
            crc == crc_of(data@.take(i as int)),
        decreases data@.len() - i,
    {
        let ghost before = crc;
        crc = crc ^ ((data[i] as u16) << 8);
        let ghost mixed = crc;
        let mut n: u8 = 0;
        while n < 8
            invariant
                n <= 8,
                crc == crc_bits(mixed, n as nat),
            decreases 8 - n,
        {
            crc = if crc & 0x8000 != 0 {
                (crc << 1) ^ 0x1021
            } else {
                crc << 1
            };
            n = n + 1;
        }
        proof {
            assert(data@.take(i + 1).drop_last() =~= data@.take(i as int));
        }
        i = i + 1;
    }
    proof {
        assert(data@.take(i as int) =~= data@);
    }
    crc
}

/// Offset of a binding, if the layout has it.
pub open spec fn binding_offset(layer: u8, gkey: u8) -> Option<int> {
    if layer < GKEY_BANKS && gkey < GKEY_SLOTS_PER_BANK {
        Some(GKEY_BANK_BASE + GKEY_BANK_STRIDE * layer + GKEY_ENTRY_LEN * gkey)
    } else {
        None
    }
}

/// Offset of a binding, if the layout has it.
pub fn gkey_binding_offset(layer: u8, gkey: u8) -> (offset: Option<usize>)
    ensures
        match offset {
            Some(o) => binding_offset(layer, gkey) == Some(o as int),
            None => binding_offset(layer, gkey) is None,
        },
{
    if layer >= GKEY_BANKS || gkey >= GKEY_SLOTS_PER_BANK {
        return None;
    }
    Some(0x20 + layer as usize * 0x40 + gkey as usize * 4)
}

/// Two to the power of `n`.
pub open spec fn bit(n: nat) -> nat
    decreases n,
{
    if n == 0 {
        1
    } else {
        2 * bit((n - 1) as nat)
    }
}

/// A HID usage that a basic keycode stands for.
pub open spec fn is_basic(usage: int) -> bool {
    0x04 <= usage <= 0xA4
}

/// The binding to a HID usage with a modifier mask.
pub open spec fn key_binding(mask: int, usage: int) -> Seq<u8> {
    seq![BIND_TYPE_KEY, BIND_SUBTYPE_HID_KEY, mask as u8, usage as u8]
}

/// The modifier mask of a modified keycode: four modifiers, in the low half for
/// the left hand and in the high half for the right hand.
pub open spec fn mask_of(keycode: u16) -> int {
    let mods = keycode as int / 256;
    if mods >= 16 {
        16 * (mods % 16)
    } else {
        mods
    }
}

/// The binding that a keycode compiles to. `None` for the keycodes that the
/// device cannot express.
pub open spec fn binding_of(keycode: u16) -> Option<Seq<u8>> {
    if keycode == 0 {
        Some(seq![0, 0, 0, 0])
    } else if is_basic(keycode as int) {
        Some(key_binding(0, keycode as int))
    } else if 0xE0 <= keycode <= 0xE7 {
        Some(key_binding(bit((keycode - 0xE0) as nat) as int, 0))
    } else if 0x0100 <= keycode <= 0x1FFF && is_basic(keycode as int % 256) && mask_of(keycode) != 0 {
        Some(key_binding(mask_of(keycode), keycode as int % 256))
    } else {
        None
    }
}

/// Why a keycode has no binding.
pub open spec fn no_binding_text(keycode: u16) -> Seq<char> {
    if 0x0100 <= keycode <= 0x1FFF {
        "QMK modified keycode 0x"@ + crate::text::hex(keycode as nat, 4)
            + " has no Logitech G-key binding equivalent"@
    } else {
        "QMK keycode 0x"@ + crate::text::hex(keycode as nat, 4) + " has no Logitech G-key binding equivalent"@
    }
}

/// A compile error with these words.
pub open spec fn is_compile_error(e: DriverError, words: Seq<char>) -> bool {
    e matches DriverError::VendorCompile { vendor, detail } && vendor == VENDOR && detail@ == words
}

fn bit_byte(n: u16) -> (b: u8)
    requires
        n < 8,
    ensures
        b == bit(n as nat),
{
    proof {
        reveal_with_fuel(bit, 9);
    }
    match n {
        0 => 1,
        1 => 2,
        2 => 4,
        3 => 8,
        4 => 16,
        5 => 32,
        6 => 64,
        _ => 128,
    }
}

fn no_binding(keycode: u16) -> (e: DriverError)
    ensures
        is_compile_error(e, no_binding_text(keycode)),
{
    let mut detail: String = if 0x0100 <= keycode && keycode <= 0x1FFF {
        "QMK modified keycode 0x".to_owned()
    } else {
        "QMK keycode 0x".to_owned()
    };
    push_hex(&mut detail, keycode as u32, 4);
    detail.append(" has no Logitech G-key binding equivalent");
    DriverError::VendorCompile { vendor: VENDOR, detail }
}

/// The binding that a keycode compiles to.
pub fn encode_gkey_binding(keycode: u16) -> (r: Result<[u8; 4], DriverError>)
    ensures
        match binding_of(keycode) {
            Some(binding) => r matches Ok(b) && b@ == binding,
            None => r matches Err(e) && is_compile_error(e, no_binding_text(keycode)),
        },
{
    let b: [u8; 4] = if keycode == 0 {
        [0, 0, 0, 0]
    } else if 0x04 <= keycode && keycode <= 0xA4 {
        [BIND_TYPE_KEY, BIND_SUBTYPE_HID_KEY, 0, keycode as u8]
    } else if 0xE0 <= keycode && keycode <= 0xE7 {
        [BIND_TYPE_KEY, BIND_SUBTYPE_HID_KEY, bit_byte(keycode - 0xE0), 0]
    } else if 0x0100 <= keycode && keycode <= 0x1FFF {
        let base: u8 = (keycode % 256) as u8;
        let mods: u8 = (keycode / 256) as u8;
        let hand_mask: u8 = mods % 16;
        if base < 0x04 || base > 0xA4 || hand_mask == 0 {
            return Err(no_binding(keycode));
        }
        let mask: u8 = if mods >= 16 {
            hand_mask * 16
        } else {
            hand_mask
        };
        [BIND_TYPE_KEY, BIND_SUBTYPE_HID_KEY, mask, base]
    } else {
        return Err(no_binding(keycode));
    };
    proof {
        assert(b@ =~= binding_of(keycode)->0);
    }
    Ok(b)
}

/// The modifier whose mask this is.
pub open spec fn single_bit(mask: int) -> Option<nat> {
    if mask == 1 {
        Some(0)
    } else if mask == 2 {
        Some(1)
    } else if mask == 4 {
        Some(2)
    } else if mask == 8 {
        Some(3)
    } else if mask == 16 {
        Some(4)
    } else if mask == 32 {
        Some(5)
    } else if mask == 64 {
        Some(6)
    } else if mask == 128 {
        Some(7)
    } else {
        None
    }
}

/// The keycode that a binding stands for. `None` for an unassigned key, and for
/// bindings that no keycode expresses.
pub open spec fn keycode_of(binding: Seq<u8>) -> Option<u16> {
    let mask = binding[2] as int;
    let usage = binding[3] as int;
    if binding[0] != BIND_TYPE_KEY || binding[1] != BIND_SUBTYPE_HID_KEY {
        None
    } else if usage == 0 {
        match single_bit(mask) {
            Some(n) => Some((0xE0 + n) as u16),
            None => None,
        }
    } else if !is_basic(usage) {
        None
    } else if mask / 16 == 0 {
        Some((256 * mask + usage) as u16)
    } else if mask % 16 == 0 {
        Some((0x1000 + 256 * (mask / 16) + usage) as u16)
    } else {
        None
    }
}

/// The keycode that the first four bytes stand for.
pub fn decode_gkey_binding(entry: &[u8]) -> (keycode: Option<u16>)
    ensures
        keycode == if entry@.len() < GKEY_ENTRY_LEN {
            None
        } else {
            keycode_of(entry@)
        },
{
    if entry.len() < GKEY_ENTRY_LEN {
        return None;
    }
    let mask: u8 = entry[2];
    let usage: u8 = entry[3];
    if entry[0] != BIND_TYPE_KEY || entry[1] != BIND_SUBTYPE_HID_KEY {
        return None;
    }
    if usage == 0 {
        match mask {
            1 => Some(0xE0),
            2 => Some(0xE1),
            4 => Some(0xE2),
            8 => Some(0xE3),
            16 => Some(0xE4),
            32 => Some(0xE5),
            64 => Some(0xE6),
            128 => Some(0xE7),
            _ => None,
        }
    } else if usage < 0x04 || usage > 0xA4 {
        None
    } else if mask / 16 == 0 {
        Some(256 * mask as u16 + usage as u16)
    } else if mask % 16 == 0 {
        Some(0x1000 + 256 * (mask / 16) as u16 + usage as u16)
    } else {
        None
    }
}

/// Decoding what a keycode compiles to gives the keycode back; the keycode that
/// leaves a key unassigned decodes to nothing.
pub proof fn bindings_round_trip(keycode: u16)
    ensures
        binding_of(keycode) matches Some(binding) ==> keycode_of(binding) == if keycode == 0 {
            None
        } else {
            Some(keycode)
        },
{
    reveal_with_fuel(bit, 9);
    if 0xE0 <= keycode <= 0xE7 {
        let n = keycode - 0xE0;
        assert(n == 0 || n == 1 || n == 2 || n == 3 || n == 4 || n == 5 || n == 6 || n == 7);
    }
}

/// Every binding that decodes to a keycode is the binding of that keycode.
pub proof fn decoded_bindings_compile_back(binding: Seq<u8>)
    requires
        binding.len() == GKEY_ENTRY_LEN,
    ensures
        keycode_of(binding) matches Some(keycode) ==> binding_of(keycode) == Some(binding),
{
    reveal_with_fuel(bit, 9);
    if let Some(keycode) = keycode_of(binding) {
        assert(binding_of(keycode)->0 =~= binding);
    }
}

/// `image` with the four bytes of `binding` at `offset`.
pub open spec fn with_binding(image: Seq<u8>, offset: int, binding: Seq<u8>) -> Seq<u8> {
    Seq::new(
        image.len(),
        |i: int|
            if offset <= i < offset + 4 {
                binding[i - offset]
            } else {
                image[i]
            },
    )
}

/// The entry `(layer, gkey, keycode)` has a place and a binding.
pub open spec fn is_compilable(entry: (u8, u8, u16)) -> bool {
    binding_offset(entry.0, entry.1) is Some && binding_of(entry.2) is Some
}

/// `image` with the bindings of the entries in it, the later over the earlier.
pub open spec fn with_entries(image: Seq<u8>, entries: Seq<(u8, u8, u16)>) -> Seq<u8>
    decreases entries.len(),
{
    if entries.len() == 0 {
        image
    } else {
        let e = entries.last();
        with_binding(
            with_entries(image, entries.drop_last()),
            binding_offset(e.0, e.1)->0,
            binding_of(e.2)->0,
        )
    }
}

/// The checksum of everything but the last two bytes.
pub open spec fn checksum(image: Seq<u8>) -> u16 {
    crc_of(image.take(image.len() - 2))
}

/// `image` with its checksum in the last two bytes, high byte first.
pub open spec fn sealed(image: Seq<u8>) -> Seq<u8> {
    let crc = checksum(image);
    image.take(image.len() - 2) + seq![(crc / 256) as u8, (crc % 256) as u8]
}

/// Why an entry cannot be compiled.
pub open spec fn bad_entry_text(entry: (u8, u8, u16)) -> Seq<char> {
    if binding_offset(entry.0, entry.1) is None {
        "no G-key binding slot for layer "@ + crate::text::dec(entry.0 as nat) + " col "@ + crate::text::dec(
            entry.1 as nat,
        )
    } else {
        no_binding_text(entry.2)
    }
}

/// Why a sector is too small.
pub open spec fn too_small_text(len: nat) -> Seq<char> {
    "profile sector too small for the G-key area ("@ + crate::text::dec(len) + " < "@ + crate::text::dec(
        MIN_SECTOR_LEN as nat,
    ) + " bytes)"@
}

fn too_small(len: usize) -> (e: DriverError)
    ensures
        is_compile_error(e, too_small_text(len as nat)),
{
    let mut detail: String = "profile sector too small for the G-key area (".to_owned();
    push_dec(&mut detail, len as u64);
    detail.append(" < ");
    push_dec(&mut detail, 226);
    detail.append(" bytes)");
    DriverError::VendorCompile { vendor: VENDOR, detail }
}

fn no_slot(layer: u8, gkey: u8) -> (e: DriverError)
    requires
        binding_offset(layer, gkey) is None,
    ensures
        forall|keycode: u16| is_compile_error(e, #[trigger] bad_entry_text((layer, gkey, keycode))),
{
    let mut detail: String = "no G-key binding slot for layer ".to_owned();
    push_dec(&mut detail, layer as u64);
    detail.append(" col ");
    push_dec(&mut detail, gkey as u64);
    DriverError::VendorCompile { vendor: VENDOR, detail }
}

/// The index of the first entry that cannot be compiled, or their number.
pub open spec fn first_bad(entries: Seq<(u8, u8, u16)>) -> int
    decreases entries.len(),
{
    if entries.len() == 0 {
        0
    } else {
        let earlier = first_bad(entries.drop_last());
        if earlier < entries.len() - 1 {
            earlier
        } else if is_compilable(entries.last()) {
            entries.len() as int
        } else {
            entries.len() - 1
        }
    }
}

/// The profile image for `entries` over `baseline`. The first entry that cannot
/// be compiled decides the error.
pub fn compile_profile_image(baseline: &[u8], entries: &[(u8, u8, u16)]) -> (r: Result<Vec<u8>, DriverError>)
    ensures
        if baseline@.len() < MIN_SECTOR_LEN {
            r matches Err(e) && is_compile_error(e, too_small_text(baseline@.len()))
        } else if first_bad(entries@) < entries@.len() {
            r matches Err(e) && is_compile_error(e, bad_entry_text(entries@[first_bad(entries@)]))
        } else {
            r matches Ok(image) && image@ == sealed(with_entries(baseline@, entries@))
        },
{
    if baseline.len() < MIN_SECTOR_LEN {
        return Err(too_small(baseline.len()));
    }
    let mut image: Vec<u8> = vstd::slice::slice_to_vec(baseline);
    let mut i: usize = 0;
    proof {
        assert(entries@.take(0).len() == 0);
    }
    while i < entries.len()
        invariant
            i <= entries@.len(),
            baseline@.len() >= MIN_SECTOR_LEN,
            image@.len() == baseline@.len(),
            first_bad(entries@.take(i as int)) == i,
            image@ == with_entries(baseline@, entries@.take(i as int)),
        decreases entries@.len() - i,
    {
        let entry: (u8, u8, u16) = entries[i];
        proof {
            assert(entries@.take(i + 1).drop_last() =~= entries@.take(i as int));
            assert(entries@.take(i + 1).last() == entry);
        }
        let offset: usize = match gkey_binding_offset(entry.0, entry.1) {
            Some(o) => o,
            None => {
                let e = no_slot(entry.0, entry.1);
                proof {
                    assert(first_bad(entries@.take(i + 1)) == i);
                    first_bad_is_stable(entries@, i + 1);
                    assert(is_compile_error(e, bad_entry_text((entry.0, entry.1, entry.2))));
                }
                return Err(e);
            },
        };
        let binding: [u8; 4] = match encode_gkey_binding(entry.2) {
            Ok(b) => b,
            Err(e) => {
                proof {
                    assert(first_bad(entries@.take(i + 1)) == i);
                    first_bad_is_stable(entries@, i + 1);
                }
                return Err(e);
            },
        };
        let ghost before = image@;
        image.set(offset, binding[0]);
        image.set(offset + 1, binding[1]);
        image.set(offset + 2, binding[2]);
        image.set(offset + 3, binding[3]);
        proof {
            assert(image@ =~= with_binding(before, offset as int, binding@));
        }
        i = i + 1;
    }
    proof {
        assert(entries@.take(i as int) =~= entries@);
    }
    let crc_at: usize = image.len() - 2;
    let ghost patched = image@;
    let crc: u16 = crc_ccitt(vstd::slice::slice_subrange(image.as_slice(), 0, crc_at));
    proof {
        assert(patched.subrange(0, crc_at as int) =~= patched.take(crc_at as int));
    }
    image.set(crc_at, (crc / 256) as u8);
    image.set(crc_at + 1, (crc % 256) as u8);
    proof {
        assert(image@ =~= sealed(patched));
    }
    Ok(image)
}

proof fn first_bad_is_stable(entries: Seq<(u8, u8, u16)>, n: int)
    requires
        0 < n <= entries.len(),
        first_bad(entries.take(n)) < n,
    ensures
        first_bad(entries) == first_bad(entries.take(n)),
    decreases entries.len() - n,
{
    if n < entries.len() {
        assert(entries.take(n + 1).drop_last() =~= entries.take(n));
        first_bad_is_stable(entries, n + 1);
    } else {
        assert(entries.take(n) =~= entries);
    }
}

/// If no entry is bad, all can be compiled.
pub proof fn all_compilable(entries: Seq<(u8, u8, u16)>)
    requires
        first_bad(entries) >= entries.len(),
    ensures
        forall|j: int| 0 <= j < entries.len() ==> is_compilable(#[trigger] entries[j]),
    decreases entries.len(),
{
    if entries.len() > 0 {
        let before = entries.drop_last();
        all_compilable(before);
        assert forall|j: int| 0 <= j < entries.len() implies is_compilable(#[trigger] entries[j]) by {
            if j < before.len() {
                assert(before[j] == entries[j]);
            }
        }
    }
}

/// The last two bytes are the checksum of the rest.
pub open spec fn is_sealed(image: Seq<u8>) -> bool {
    &&& image.len() >= 2
    &&& 256 * image[image.len() - 2] + image[image.len() - 1] == checksum(image)
}

/// True when the last two bytes are the checksum of the rest.
pub fn sector_crc_valid(image: &[u8]) -> (valid: bool)
    ensures
        valid == is_sealed(image@),
{
    if image.len() < 2 {
        return false;
    }
    let crc_at: usize = image.len() - 2;
    let crc: u16 = crc_ccitt(vstd::slice::slice_subrange(image, 0, crc_at));
    proof {
        assert(image@.subrange(0, crc_at as int) =~= image@.take(crc_at as int));
    }
    crc == 256 * image[crc_at] as u16 + image[crc_at + 1] as u16
}

/// The G-key bindings in an image that decode to keycodes, on the first `layers`
/// layers and the first `gkeys` keys.
pub open spec fn bindings_in(image: Seq<u8>, layers: u8, gkeys: u8) -> Map<(u8, u8, u8), u16> {
    Map::new(
        |slot: (u8, u8, u8)|
            slot.0 < layers && slot.1 == 0 && slot.2 < gkeys && binding_at(image, slot.0, slot.2) is Some,
        |slot: (u8, u8, u8)| binding_at(image, slot.0, slot.2)->0,
    )
}

/// The keycode bound to a G-key.
pub open spec fn binding_at(image: Seq<u8>, layer: u8, gkey: u8) -> Option<u16> {
    match binding_offset(layer, gkey) {
        Some(o) if o + 4 <= image.len() => keycode_of(image.subrange(o, o + 4)),
        _ => None,
    }
}

/// The bindings found before the place `(layer, gkey)`.
spec fn bindings_before(all: Map<(u8, u8, u8), u16>, layer: int, gkey: int) -> Map<(u8, u8, u8), u16> {
    all.restrict(Set::new(|slot: (u8, u8, u8)| slot.0 < layer || (slot.0 == layer && slot.2 < gkey)))
}

/// The G-key bindings in an image that decode to keycodes.
pub fn parse_gkey_bindings(image: &[u8], layers: u8, gkeys: u8) -> (keymap: Keymap)
    ensures
        keymap.wf(),
        keymap@ == bindings_in(image@, layers, gkeys),
{
    let mut keymap: Keymap = SortedMap::new();
    let banks: u8 = if layers < GKEY_BANKS {
        layers
    } else {
        GKEY_BANKS
    };
    let slots: u8 = if gkeys < GKEY_SLOTS_PER_BANK {
        gkeys
    } else {
        GKEY_SLOTS_PER_BANK
    };
    let ghost all = bindings_in(image@, layers, gkeys);
    proof {
        assert(bindings_before(all, 0, 0) =~= Map::empty());
    }
    let mut layer: u8 = 0;
    while layer < banks
        invariant
            layer <= banks <= GKEY_BANKS,
            banks <= layers,
            slots <= GKEY_SLOTS_PER_BANK,
            slots <= gkeys,
            slots == gkeys || slots == GKEY_SLOTS_PER_BANK,
            all == bindings_in(image@, layers, gkeys),
            keymap.wf(),
            keymap@ == bindings_before(all, layer as int, 0),
        decreases banks - layer,
    {
        let mut gkey: u8 = 0;
        while gkey < slots
            invariant
                layer < banks <= GKEY_BANKS,
                banks <= layers,
                gkey <= slots <= GKEY_SLOTS_PER_BANK,
                slots <= gkeys,
                all == bindings_in(image@, layers, gkeys),
                keymap.wf(),
                keymap@ == bindings_before(all, layer as int, gkey as int),
            decreases slots - gkey,
        {
            let ghost slot = (layer, 0u8, gkey);
            let mut found: Option<u16> = None;
            if let Some(offset) = gkey_binding_offset(layer, gkey) {
                if image.len() >= 4 && offset <= image.len() - 4 {
                    found = decode_gkey_binding(vstd::slice::slice_subrange(image, offset, offset + 4));
                }
            }
            proof {
                assert(found == binding_at(image@, layer, gkey));
            }
            if let Some(keycode) = found {
                keymap.insert(Slot { layer, row: 0, col: gkey }, keycode);
                proof {
                    assert(all.dom().contains(slot));
                    assert(all[slot] == keycode);
                    assert(bindings_before(all, layer as int, gkey + 1) =~= bindings_before(
                        all,
                        layer as int,
                        gkey as int,
                    ).insert(slot, keycode));
                }
            } else {
                proof {
                    assert(!all.dom().contains(slot));
                    assert(bindings_before(all, layer as int, gkey + 1) =~= bindings_before(
                        all,
                        layer as int,
                        gkey as int,
                    ));
                }
            }
            gkey = gkey + 1;
        }
        proof {
            assert(bindings_before(all, layer + 1, 0) =~= bindings_before(all, layer as int, slots as int));
        }
        layer = layer + 1;
    }
    proof {
        assert(bindings_before(all, banks as int, 0) =~= all);
    }
    keymap
}

/// Compiling keeps the length of the image.
pub proof fn with_entries_len(image: Seq<u8>, entries: Seq<(u8, u8, u16)>)
    ensures
        with_entries(image, entries).len() == image.len(),
    decreases entries.len(),
{
    if entries.len() > 0 {
        with_entries_len(image, entries.drop_last());
    }
}

/// A compiled image carries a valid checksum.
pub proof fn compiled_images_are_sealed(image: Seq<u8>)
    requires
        image.len() >= 2,
    ensures
        is_sealed(sealed(image)),
        sealed(image).len() == image.len(),
{
    let s = sealed(image);
    assert(s.take(s.len() - 2) =~= image.take(image.len() - 2));
}

/// What was compiled reads back: the G-key of an entry that no later entry
/// overrides is bound to the entry's keycode.
pub proof fn compiled_bindings_read_back(baseline: Seq<u8>, entries: Seq<(u8, u8, u16)>, i: int)
    requires
        baseline.len() >= MIN_SECTOR_LEN,
        forall|j: int| 0 <= j < entries.len() ==> is_compilable(#[trigger] entries[j]),
        0 <= i < entries.len(),
        forall|j: int|
            i < j < entries.len() ==> (#[trigger] entries[j]).0 != entries[i].0 || entries[j].1 != entries[i].1,
    ensures
        binding_at(sealed(with_entries(baseline, entries)), entries[i].0, entries[i].1) == if entries[i].2 == 0 {
            None
        } else {
            Some(entries[i].2)
        },
    decreases entries.len(),
{
    let e = entries[i];
    let o = binding_offset(e.0, e.1)->0;
    with_entries_len(baseline, entries);
    with_entries_len(baseline, entries.drop_last());
    binding_survives(baseline, entries, i);
    let image = with_entries(baseline, entries);
    assert(sealed(image).subrange(o, o + 4) =~= binding_of(e.2)->0);
    bindings_round_trip(e.2);
}

proof fn binding_survives(baseline: Seq<u8>, entries: Seq<(u8, u8, u16)>, i: int)
    requires
        baseline.len() >= MIN_SECTOR_LEN,
        forall|j: int| 0 <= j < entries.len() ==> is_compilable(#[trigger] entries[j]),
        0 <= i < entries.len(),
        forall|j: int|
            i < j < entries.len() ==> (#[trigger] entries[j]).0 != entries[i].0 || entries[j].1 != entries[i].1,
    ensures
        ({
            let o = binding_offset(entries[i].0, entries[i].1)->0;
            with_entries(baseline, entries).subrange(o, o + 4) == binding_of(entries[i].2)->0
        }),
    decreases entries.len(),
{
    let e = entries[i];
    let o = binding_offset(e.0, e.1)->0;
    let last = entries.last();
    let before = entries.drop_last();
    with_entries_len(baseline, entries);
    with_entries_len(baseline, before);
    let image = with_entries(baseline, entries);
    assert(binding_of(e.2)->0.len() == 4);
    if i == entries.len() - 1 {
        assert(image.subrange(o, o + 4) =~= binding_of(e.2)->0);
    } else {
        assert forall|j: int| 0 <= j < before.len() implies is_compilable(#[trigger] before[j]) by {
            assert(before[j] == entries[j]);
        }
        assert forall|j: int| i < j < before.len() implies (#[trigger] before[j]).0 != before[i].0 || before[j].1
            != before[i].1 by {
            assert(before[j] == entries[j]);
        }
        binding_survives(baseline, before, i);
        assert(is_compilable(entries[entries.len() - 1]));
        assert(last == entries[entries.len() - 1]);
        assert(last.0 != e.0 || last.1 != e.1);
        assert(image.subrange(o, o + 4) =~= with_entries(baseline, before).subrange(o, o + 4));
    }
}

/// The bindings of a bank follow each other every four bytes, in the order of the
/// G-keys, and the banks every 0x40 bytes, in the order of the layers, from 0x20
/// on. There are three banks of sixteen.
pub proof fn bindings_lie_in_order(layer: u8, gkey: u8)
    ensures
        binding_offset(layer, gkey) is Some <==> layer < 3 && gkey < 16,
        binding_offset(layer, gkey) matches Some(o) ==> {
            &&& 0x20 + 0x40 * layer <= o < 0x60 + 0x40 * layer
            &&& gkey == 0 ==> o == 0x20 + 0x40 * layer
            &&& gkey > 0 ==> binding_offset(layer, (gkey - 1) as u8) == Some(o - 4)
            &&& layer > 0 ==> binding_offset((layer - 1) as u8, gkey) == Some(o - 0x40)
        },
{
}

/// The four bytes of a binding: nothing for the keycode that unassigns, and else
/// 80 02, the modifiers and the HID usage. A basic keycode is its own usage, a
/// modifier key is one bit of the modifiers, and a modified keycode has the usage
/// in its low byte and one hand's modifiers in its high byte. Other keycodes have
/// no binding.
pub proof fn binding_bytes(keycode: u16)
    ensures
        ({
            let low = keycode as int % 256;
            let high = keycode as int / 256;
            let modified = (1 <= high <= 0x0F || 0x11 <= high <= 0x1F) && 0x04 <= low <= 0xA4;
            let basic = 0x04 <= keycode <= 0xA4;
            let modifier = 0xE0 <= keycode <= 0xE7;
            &&& binding_of(keycode) is Some <==> keycode == 0 || basic || modifier || modified
            &&& binding_of(keycode) matches Some(b) ==> {
                &&& b.len() == 4
                &&& keycode == 0 ==> b[0] == 0 && b[1] == 0 && b[2] == 0 && b[3] == 0
                &&& keycode != 0 ==> b[0] == 0x80 && b[1] == 0x02
                &&& basic ==> b[2] == 0 && b[3] == keycode
                &&& modifier ==> b[2] as int == (1u8 << ((keycode - 0xE0) as u8)) as int && b[3] == 0
                &&& modified && high <= 0x0F ==> b[2] == high && b[3] == low
                &&& modified && high > 0x0F ==> b[2] == 16 * (high - 16) && b[3] == low
            }
        }),
{
    reveal_with_fuel(bit, 9);
    assert(1u8 << 0u8 == 1 && 1u8 << 1u8 == 2 && 1u8 << 2u8 == 4 && 1u8 << 3u8 == 8 && 1u8 << 4u8 == 16 && 1u8 << 5u8
        == 32 && 1u8 << 6u8 == 64 && 1u8 << 7u8 == 128) by (bit_vector);
    if 0xE0 <= keycode <= 0xE7 {
        let n = keycode - 0xE0;
        assert(n == 0 || n == 1 || n == 2 || n == 3 || n == 4 || n == 5 || n == 6 || n == 7);
    }
}

/// A compiled image keeps the length of the baseline. The binding of an entry
/// that no later entry overrides stands in the bank of its layer, at the place of
/// its G-key, in every bank alike.
pub proof fn compiled_bindings_have_their_places(baseline: Seq<u8>, entries: Seq<(u8, u8, u16)>, i: int)
    requires
        baseline.len() >= 226,
        first_bad(entries) >= entries.len(),
        0 <= i < entries.len(),
        forall|j: int|
            i < j < entries.len() ==> (#[trigger] entries[j]).0 != entries[i].0 || entries[j].1 != entries[i].1,
    ensures
        ({
            let image = sealed(with_entries(baseline, entries));
            let (layer, gkey, keycode) = entries[i];
            let at = 0x20 + 0x40 * layer + 4 * gkey;
            &&& image.len() == baseline.len()
            &&& layer < 3 && gkey < 16
            &&& binding_of(keycode) == Some(image.subrange(at, at + 4))
        }),
{
    all_compilable(entries);
    with_entries_len(baseline, entries);
    binding_survives(baseline, entries, i);
    let (layer, gkey, keycode) = entries[i];
    let at = 0x20 + 0x40 * layer + 4 * gkey;
    let patched = with_entries(baseline, entries);
    assert(is_compilable(entries[i]));
    assert(sealed(patched).subrange(at, at + 4) =~= patched.subrange(at, at + 4));
}

/// Compiling changes nothing but the bindings of the entries and the checksum:
/// a byte before the last two that belongs to the place of no entry is the
/// baseline's.
pub proof fn the_rest_of_the_baseline_stays(baseline: Seq<u8>, entries: Seq<(u8, u8, u16)>, at: int)
    requires
        baseline.len() >= 226,
        first_bad(entries) >= entries.len(),
        0 <= at < baseline.len() - 2,
        forall|j: int|
            0 <= j < entries.len() ==> !(0x20 + 0x40 * (#[trigger] entries[j]).0 + 4 * entries[j].1 <= at < 0x24 + 0x40
                * entries[j].0 + 4 * entries[j].1),
    ensures
        sealed(with_entries(baseline, entries))[at] == baseline[at],
    decreases entries.len(),
{
    all_compilable(entries);
    with_entries_len(baseline, entries);
    if entries.len() > 0 {
        let before = entries.drop_last();
        assert(entries.last() == entries[entries.len() - 1]);
        assert forall|j: int| 0 <= j < before.len() implies !(0x20 + 0x40 * (#[trigger] before[j]).0 + 4 * before[j].1
            <= at < 0x24 + 0x40 * before[j].0 + 4 * before[j].1) by {
            assert(before[j] == entries[j]);
        }
        with_entries_len(baseline, before);
        the_rest_of_the_baseline_stays(baseline, before, at);
        assert(with_entries(baseline, entries)[at] == with_entries(baseline, before)[at]);
    }
}

/// A binding is read from the bank of its layer, at the place of its G-key: the
/// keymap of an image holds for a G-key what the four bytes there decode to, and
/// nothing where they decode to nothing or are not all there.
pub proof fn read_bindings_have_their_places(image: Seq<u8>, layers: u8, gkeys: u8, layer: u8, row: u8, gkey: u8)
    ensures
        ({
            let at = 0x20 + 0x40 * layer + 4 * gkey;
            let there = at + 4 <= image.len() && keycode_of(image.subrange(at, at + 4)) is Some;
            let keymap = bindings_in(image, layers, gkeys);
            &&& keymap.dom().contains((layer, row, gkey)) <==> {
                &&& row == 0
                &&& layer < layers && layer < 3
                &&& gkey < gkeys && gkey < 16
                &&& there
            }
            &&& keymap.dom().contains((layer, row, gkey)) ==> Some(keymap[(layer, row, gkey)]) == keycode_of(
                image.subrange(at, at + 4),
            )
        }),
{
}

/// Four bytes decode to a keycode if they are its binding, and to nothing if they
/// are no keycode's or unassign the key.
pub proof fn decoding_is_compiling_back(binding: Seq<u8>, keycode: u16)
    requires
        binding.len() == 4,
    ensures
        keycode_of(binding) == Some(keycode) <==> keycode != 0 && binding_of(keycode) == Some(binding),
{
    bindings_round_trip(keycode);
    decoded_bindings_compile_back(binding);
}

/// The entry that decides the error is the first that names a place outside the
/// three banks of sixteen, or a keycode without a binding; all before it compile.
pub proof fn the_first_bad_entry_decides(entries: Seq<(u8, u8, u16)>)
    ensures
        0 <= first_bad(entries) <= entries.len(),
        forall|j: int|
            0 <= j < first_bad(entries) ==> (#[trigger] entries[j]).0 < 3 && entries[j].1 < 16 && binding_of(
                entries[j].2,
            ) is Some,
        first_bad(entries) < entries.len() ==> {
            let (layer, gkey, keycode) = entries[first_bad(entries)];
            layer >= 3 || gkey >= 16 || binding_of(keycode) is None
        },
    decreases entries.len(),
{
    if entries.len() > 0 {
        let before = entries.drop_last();
        the_first_bad_entry_decides(before);
        assert forall|j: int| 0 <= j < first_bad(entries) implies (#[trigger] entries[j]).0 < 3 && entries[j].1 < 16
            && binding_of(entries[j].2) is Some by {
            if j < before.len() {
                assert(before[j] == entries[j]);
            }
        }
        let f = first_bad(before);
        if f < before.len() {
            assert(before[f] == entries[f]);
        }
    }
}

/// Eight bits of the checksum, step by step.
proof fn eight_bits(crc: u16)
    ensures
        crc_bits(crc, 8) == crc_bit(
            crc_bit(crc_bit(crc_bit(crc_bit(crc_bit(crc_bit(crc_bit(crc))))))),
        ),
{
    reveal_with_fuel(crc_bits, 9);
}

/// The checksum starts from 0xFFFF. A byte that equals the checksum's high byte
/// only moves the low byte up, and two bytes that differ in the lowest bit lead to
/// checksums that differ by the polynomial.
pub proof fn checksum_steps(data: Seq<u8>, last: u8)
    ensures
        crc_of(Seq::<u8>::empty()) == 0xFFFF,
        crc_of(data.push((crc_of(data) / 256) as u8)) == 256 * (crc_of(data) as int % 256),
        crc_of(data.push(last ^ 1)) == crc_of(data.push(last)) ^ 0x1021,
{
    let crc = crc_of(data);
    let high = (crc / 256) as u8;
    assert(data.push(high).drop_last() =~= data);
    assert(data.push(last).drop_last() =~= data);
    assert(data.push(last ^ 1).drop_last() =~= data);
    let mixed = crc ^ ((high as u16) << 8);
    let wide = crc / 256;
    assert(crc ^ (wide << 8) == crc % 256) by (bit_vector)
        requires
            wide == crc / 256,
    ;
    eight_bits(mixed);
    low_byte_moves_up(mixed);
    let a = crc ^ ((last as u16) << 8);
    let b = crc ^ (((last ^ 1) as u16) << 8);
    assert(b == a ^ 0x0100) by (bit_vector)
        requires
            a == crc ^ ((last as u16) << 8),
            b == crc ^ (((last ^ 1) as u16) << 8),
    ;
    lowest_bit_leaves_the_polynomial(a, b);
}

/// Without a bit that falls out, a bit of the checksum is a doubling.
proof fn bit_doubles(crc: u16)
    requires
        crc < 0x8000,
    ensures
        crc_bit(crc) == 2 * crc,
{
    assert(crc & 0x8000 == 0 && (crc << 1) % 2 == 0 && (crc << 1) / 2 == crc) by (bit_vector)
        requires
            crc < 0x8000,
    ;
}

proof fn low_byte_moves_up(crc: u16)
    requires
        crc < 256,
    ensures
        crc_bits(crc, 8) == 256 * crc,
{
    eight_bits(crc);
    bit_doubles(crc);
    bit_doubles((2 * crc) as u16);
    bit_doubles((4 * crc) as u16);
    bit_doubles((8 * crc) as u16);
    bit_doubles((16 * crc) as u16);
    bit_doubles((32 * crc) as u16);
    bit_doubles((64 * crc) as u16);
    bit_doubles((128 * crc) as u16);
}

/// A difference in one bit moves up, and out of the highest place it leaves the
/// polynomial.
proof fn difference_moves_up(a: u16, b: u16, m: u16)
    requires
        b == a ^ m,
        m <= 0x8000,
    ensures
        m < 0x8000 ==> crc_bit(b) == crc_bit(a) ^ ((2 * m) as u16),
        m == 0x8000 ==> crc_bit(b) == crc_bit(a) ^ 0x1021,
{
    let up = m << 1;
    assert(m < 0x8000 ==> up % 2 == 0 && up / 2 == m) by (bit_vector)
        requires
            up == m << 1,
    ;
    assert(m < 0x8000 ==> a & 0x8000 == b & 0x8000 && (b << 1) == (a << 1) ^ up && ((b << 1) ^ 0x1021)
        == ((a << 1) ^ 0x1021) ^ up) by (bit_vector)
        requires
            b == a ^ m,
            up == m << 1,
    ;
    assert(m == 0x8000 ==> (a & 0x8000 == 0 || b & 0x8000 == 0) && (a & 0x8000 != 0 || b & 0x8000 != 0) && (b << 1) == (a << 1) && ((a << 1) ^ 0x1021)
        ^ 0x1021 == (a << 1)) by (bit_vector)
        requires
            b == a ^ m,
    ;
}

proof fn lowest_bit_leaves_the_polynomial(a: u16, b: u16)
    requires
        b == a ^ 0x0100,
    ensures
        crc_bits(b, 8) == crc_bits(a, 8) ^ 0x1021,
{
    eight_bits(a);
    eight_bits(b);
    difference_moves_up(a, b, 0x0100);
    let (a1, b1) = (crc_bit(a), crc_bit(b));
    difference_moves_up(a1, b1, 0x0200);
    let (a2, b2) = (crc_bit(a1), crc_bit(b1));
    difference_moves_up(a2, b2, 0x0400);
    let (a3, b3) = (crc_bit(a2), crc_bit(b2));
    difference_moves_up(a3, b3, 0x0800);
    let (a4, b4) = (crc_bit(a3), crc_bit(b3));
    difference_moves_up(a4, b4, 0x1000);
    let (a5, b5) = (crc_bit(a4), crc_bit(b4));
    difference_moves_up(a5, b5, 0x2000);
    let (a6, b6) = (crc_bit(a5), crc_bit(b5));
    difference_moves_up(a6, b6, 0x4000);
    difference_moves_up(crc_bit(a6), crc_bit(b6), 0x8000);
}

/// An image that ends in the checksum of what is before it has itself the
/// checksum zero.
pub proof fn sealed_images_cancel(image: Seq<u8>)
    requires
        image.len() >= 2,
    ensures
        crc_of(sealed(image)) == 0,
{
    let rest = image.take(image.len() - 2);
    let crc = crc_of(rest);
    let high = (crc / 256) as u8;
    let low = (crc % 256) as u8;
    assert(sealed(image) =~= rest.push(high).push(low));
    checksum_steps(rest, 0);
    let half = crc_of(rest.push(high));
    assert((half / 256) as u8 == low);
    checksum_steps(rest.push(high), 0);
}

/// An image has a valid checksum exactly if sealing it changes nothing, and so no
/// two images with valid checksums differ in the last two bytes alone.
pub proof fn valid_checksums_are_unique(image: Seq<u8>)
    ensures
        is_sealed(image) <==> image.len() >= 2 && sealed(image) == image,
        image.len() >= 2 ==> sealed(image).take(image.len() - 2) == image.take(image.len() - 2),
{
    if image.len() >= 2 {
        let s = sealed(image);
        let n = image.len() - 2;
        assert(s.take(n) =~= image.take(n));
        assert(s[n] == (checksum(image) / 256) as u8 && s[n + 1] == (checksum(image) % 256) as u8);
        if is_sealed(image) {
            assert(s =~= image) by {
                assert forall|i: int| 0 <= i < n implies s[i] == image[i] by {
                    assert(s.take(n)[i] == image.take(n)[i]);
                }
            }
        }
    }
}

/// What is said of a keymap that cannot be compiled, under the vendor's name: which
/// keycode has no binding, which key has no place, or how small the sector is.
pub proof fn compile_errors_are_told(e: DriverError, words: Seq<char>, entry: (u8, u8, u16), len: nat)
    ensures
        is_compile_error(e, words) <==> e is VendorCompile && e->vendor == "logitech" && e->detail@ == words,
        no_binding_text(entry.2) == (if 0x0100 <= entry.2 <= 0x1FFF {
            "QMK modified keycode 0x"@
        } else {
            "QMK keycode 0x"@
        }) + crate::text::hex(entry.2 as nat, 4) + " has no Logitech G-key binding equivalent"@,
        entry.0 < 3 && entry.1 < 16 ==> bad_entry_text(entry) == no_binding_text(entry.2),
        entry.0 >= 3 || entry.1 >= 16 ==> bad_entry_text(entry) == "no G-key binding slot for layer "@
            + crate::text::dec(entry.0 as nat) + " col "@ + crate::text::dec(entry.1 as nat),
        too_small_text(len) == "profile sector too small for the G-key area ("@ + crate::text::dec(len) + " < "@
            + crate::text::dec(226) + " bytes)"@,
{
}

/// A binding is placed at 0x20, 0x40 further for each layer and four further for
/// each G-key, on three layers of sixteen keys.
pub proof fn places_are_given(layer: u8, gkey: u8, place: Option<usize>)
    requires
        call_ensures(gkey_binding_offset, (layer, gkey), place),
    ensures
        place is Some <==> layer < 3 && gkey < 16,
        place matches Some(at) ==> at == 0x20 + 0x40 * layer + 4 * gkey,
{
}

/// An image that compiles has the binding of its last entry at the place of the
/// entry, keeps the length of the baseline, and has a valid checksum.
pub proof fn images_are_compiled(baseline: &[u8], entries: &[(u8, u8, u16)], r: Result<Vec<u8>, DriverError>)
    requires
        call_ensures(compile_profile_image, (baseline, entries), r),
        entries@.len() > 0,
    ensures
        r matches Ok(image) ==> {
            let (layer, gkey, keycode) = entries@.last();
            let at = 0x20 + 0x40 * layer + 4 * gkey;
            &&& image@.len() == baseline@.len()
            &&& binding_of(keycode) == Some(image@.subrange(at, at + 4))
            &&& is_sealed(image@)
        },
{
    if r is Ok {
        the_first_bad_entry_decides(entries@);
        compiled_bindings_have_their_places(baseline@, entries@, entries@.len() - 1);
        with_entries_len(baseline@, entries@);
        compiled_images_are_sealed(with_entries(baseline@, entries@));
    }
}

/// A keycode compiles to the four bytes of its binding, if it has one.
pub proof fn bindings_are_encoded(keycode: u16, r: Result<[u8; 4], DriverError>)
    requires
        call_ensures(encode_gkey_binding, (keycode,), r),
    ensures
        r is Ok <==> binding_of(keycode) is Some,
        r matches Ok(b) ==> Some(b@) == binding_of(keycode),
{
}

} // verus!
