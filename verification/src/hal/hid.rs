//! HID report descriptors.
//!
//! A descriptor is a sequence of items. A short item is a prefix byte (two low
//! bits: the size of the data, the rest: tag and type) and its data; a long item
//! is skipped. The data of the last item may be cut off.

use vstd::prelude::*;

verus! {

/// The prefix of a long item.
pub const LONG_ITEM: u8 = 0xFE;

/// Tag and type of a Usage Page item.
pub const USAGE_PAGE: u8 = 0x04;

/// Tag and type of a Report Count item.
pub const REPORT_COUNT: u8 = 0x94;

/// Tag and type of a Feature item.
pub const FEATURE: u8 = 0xB0;

/// A short item: tag and type, the announced size of the data, and the data
/// that is there.
#[verifier::ext_equal]
pub struct ItemModel {
    pub tag: u8,
    pub size: nat,
    pub data: Seq<u8>,
}

/// A short item.
#[derive(Debug)]
pub struct ShortItem {
    pub tag: u8,
    pub size: usize,
    pub data: Vec<u8>,
}

impl View for ShortItem {
    type V = ItemModel;

    open spec fn view(&self) -> ItemModel {
        ItemModel { tag: self.tag, size: self.size as nat, data: self.data@ }
    }
}

/// The data size that a prefix announces.
pub open spec fn data_size(prefix: u8) -> nat {
    if prefix % 4 == 3 {
        4
    } else {
        (prefix % 4) as nat
    }
}

/// How many bytes an item takes; a cut-off item takes what is left.
pub open spec fn item_len(d: Seq<u8>) -> nat {
    let n: nat = if d[0] == LONG_ITEM {
        if d.len() < 2 {
            d.len()
        } else {
            3 + d[1] as nat
        }
    } else {
        1 + data_size(d[0])
    };
    if n <= d.len() {
        n
    } else {
        d.len()
    }
}

/// The short items of a descriptor, in order.
pub open spec fn short_items(d: Seq<u8>) -> Seq<ItemModel>
    decreases d.len(),
{
    if d.len() == 0 {
        Seq::empty()
    } else {
        let rest = short_items(d.skip(item_len(d) as int));
        if d[0] == LONG_ITEM {
            rest
        } else {
            seq![
                ItemModel {
                    tag: (d[0] - d[0] % 4) as u8,
                    size: data_size(d[0]),
                    data: d.subrange(1, item_len(d) as int),
                },
            ] + rest
        }
    }
}

/// The number that the bytes spell, least significant byte first.
pub open spec fn little_endian(bytes: Seq<u8>) -> nat
    decreases bytes.len(),
{
    if bytes.len() == 0 {
        0
    } else {
        bytes[0] as nat + 256 * little_endian(bytes.skip(1))
    }
}

/// The number that at most four bytes spell.
pub fn le_value(bytes: &[u8]) -> (value: u32)
    requires
        bytes@.len() <= 4,
    ensures
        value == little_endian(bytes@),
{
    proof {
        reveal_with_fuel(little_endian, 5);
        let b = bytes@;
        if b.len() > 0 {
            assert(b.skip(1).len() == b.len() - 1);
            if b.len() > 1 {
                assert(b.skip(1)[0] == b[1]);
                assert(b.skip(1).skip(1) =~= b.skip(2));
                if b.len() > 2 {
                    assert(b.skip(2)[0] == b[2]);
                    assert(b.skip(2).skip(1) =~= b.skip(3));
                    if b.len() > 3 {
                        assert(b.skip(3)[0] == b[3]);
                        assert(b.skip(3).skip(1).len() == 0);
                    } else {
                        assert(b.skip(3).len() == 0);
                    }
                } else {
                    assert(b.skip(2).len() == 0);
                }
            } else {
                assert(b.skip(1).len() == 0);
            }
        }
    }
    let n: usize = bytes.len();
    if n == 0 {
        0
    } else if n == 1 {
        bytes[0] as u32
    } else if n == 2 {
        bytes[0] as u32 + 256 * bytes[1] as u32
    } else if n == 3 {
        bytes[0] as u32 + 256 * bytes[1] as u32 + 65536 * bytes[2] as u32
    } else {
        bytes[0] as u32 + 256 * bytes[1] as u32 + 65536 * bytes[2] as u32 + 16777216 * bytes[3] as u32
    }
}

/// The models of the items.
pub open spec fn models(items: Seq<ShortItem>) -> Seq<ItemModel> {
    items.map_values(|item: ShortItem| item@)
}

/// Splits a descriptor into its short items.
pub fn parse_items(d: &[u8]) -> (items: Vec<ShortItem>)
    ensures
        models(items@) == short_items(d@),
{
    let mut items: Vec<ShortItem> = Vec::new();
    let mut i: usize = 0;
    proof {
        assert(d@.skip(0) =~= d@);
        assert(models(items@) + short_items(d@) =~= short_items(d@));
    }
    while i < d.len()
        invariant
            i <= d@.len(),
            models(items@) + short_items(d@.skip(i as int)) == short_items(d@),
        decreases d@.len() - i,
    {
        let ghost rest = d@.skip(i as int);
        let prefix: u8 = d[i];
        let left: usize = d.len() - i;
        let wanted: usize = if prefix == LONG_ITEM {
            if left < 2 {
                left
            } else {
                3 + d[i + 1] as usize
            }
        } else if prefix % 4 == 3 {
            5
        } else {
            1 + (prefix % 4) as usize
        };
        let len: usize = if wanted <= left {
            wanted
        } else {
            left
        };
        proof {
            assert(rest[0] == prefix);
            assert(len == item_len(rest));
            assert(rest.skip(len as int) =~= d@.skip(i + len));
        }
        if prefix != LONG_ITEM {
            let size: usize = if prefix % 4 == 3 {
                4
            } else {
                (prefix % 4) as usize
            };
            let data: Vec<u8> = vstd::slice::slice_to_vec(vstd::slice::slice_subrange(d, i + 1, i + len));
            let item = ShortItem { tag: prefix - prefix % 4, size, data };
            let ghost before = items@;
            items.push(item);
            proof {
                assert(item@.data =~= rest.subrange(1, len as int));
                assert(models(items@) =~= models(before) + seq![item@]);
                assert(models(items@) + short_items(rest.skip(len as int)) =~= models(before) + short_items(rest));
            }
        }
        i = i + len;
    }
    proof {
        assert(d@.skip(i as int).len() == 0);
        assert(models(items@) + short_items(d@.skip(i as int)) =~= models(items@));
    }
    items
}

/// The page that a complete Usage Page item names; of a 32-bit page, the low half.
pub open spec fn usage_page(item: ItemModel) -> Option<u16> {
    if item.tag != USAGE_PAGE || item.size == 0 || item.data.len() < item.size {
        None
    } else if item.size == 1 {
        Some(item.data[0] as u16)
    } else {
        Some((item.data[0] + 256 * item.data[1]) as u16)
    }
}

/// The descriptor names the usage page `target`.
pub open spec fn names_usage_page(d: Seq<u8>, target: u16) -> bool {
    exists|k: int| 0 <= k < short_items(d).len() && usage_page(#[trigger] short_items(d)[k]) == Some(target)
}

/// True when the descriptor names the usage page `target`.
pub fn hid_descriptor_has_usage_page(descriptor: &[u8], target: u16) -> (found: bool)
    ensures
        found == names_usage_page(descriptor@, target),
{
    let items = parse_items(descriptor);
    let mut k: usize = 0;
    while k < items.len()
        invariant
            models(items@) == short_items(descriptor@),
            k <= items@.len(),
            forall|j: int|
                0 <= j < k ==> usage_page(#[trigger] short_items(descriptor@)[j]) != Some(target),
        decreases items@.len() - k,
    {
        let item = &items[k];
        proof {
            assert(short_items(descriptor@)[k as int] == item@);
        }
        if item.tag == USAGE_PAGE && item.size > 0 && item.data.len() >= item.size {
            let page: u16 = if item.size == 1 {
                item.data[0] as u16
            } else {
                item.data[0] as u16 + 256 * item.data[1] as u16
            };
            if page == target {
                return true;
            }
        }
        k = k + 1;
    }
    false
}

/// The Report Count in force at the item `k`; zero before the first.
///
/// `value` reads a Report Count item.
pub open spec fn count_at(items: Seq<ItemModel>, k: int, value: spec_fn(ItemModel) -> nat) -> nat
    decreases k,
{
    if k <= 0 {
        0
    } else if items[k - 1].tag == REPORT_COUNT {
        value(items[k - 1])
    } else {
        count_at(items, k - 1, value)
    }
}

/// The descriptor declares a Feature report of at least `min_count` fields.
pub open spec fn declares_feature(d: Seq<u8>, min_count: u32, value: spec_fn(ItemModel) -> nat) -> bool {
    let items = short_items(d);
    exists|k: int|
        0 <= k < items.len() && (#[trigger] items[k]).tag == FEATURE && count_at(items, k, value) >= min_count
}

/// A Report Count item read in full; zero where its data is cut off.
pub open spec fn whole_value(item: ItemModel) -> nat {
    if item.data.len() < item.size {
        0
    } else {
        little_endian(item.data)
    }
}

/// A Report Count item read with zeros for data that is cut off.
pub open spec fn padded_value(item: ItemModel) -> nat {
    little_endian(item.data)
}

/// No item has more than four bytes of data, nor more than it announces.
pub proof fn item_data_is_short(d: Seq<u8>, k: int)
    requires
        0 <= k < short_items(d).len(),
    ensures
        short_items(d)[k].data.len() <= short_items(d)[k].size,
        short_items(d)[k].size <= 4,
    decreases d.len(),
{
    if d.len() > 0 {
        let rest = d.skip(item_len(d) as int);
        if d[0] == LONG_ITEM {
            item_data_is_short(rest, k);
        } else if k > 0 {
            item_data_is_short(rest, k - 1);
        }
    }
}

/// Which reading of Report Count items is meant.
#[derive(Clone, Copy, PartialEq, Eq, Structural, Debug)]
pub enum CutOff {
    /// A cut-off count is zero.
    Zero,
    /// A cut-off count is padded with zeros.
    Padded,
}

/// The value of a Report Count item under a reading.
pub open spec fn count_value(reading: CutOff) -> spec_fn(ItemModel) -> nat {
    match reading {
        CutOff::Zero => |item: ItemModel| whole_value(item),
        CutOff::Padded => |item: ItemModel| padded_value(item),
    }
}

/// True when the descriptor declares a Feature report of at least `min_count` fields.
pub fn has_feature_report(descriptor: &[u8], min_count: u32, reading: CutOff) -> (found: bool)
    ensures
        found == declares_feature(descriptor@, min_count, count_value(reading)),
{
    let items = parse_items(descriptor);
    let mut count: u32 = 0;
    let mut k: usize = 0;
    let ghost all = short_items(descriptor@);
    let ghost value = count_value(reading);
    while k < items.len()
        invariant
            all == short_items(descriptor@),
            value == count_value(reading),
            models(items@) == all,
            k <= items@.len(),
            count == count_at(all, k as int, value),
            forall|j: int|
                0 <= j < k ==> !((#[trigger] all[j]).tag == FEATURE && count_at(all, j, value) >= min_count),
        decreases items@.len() - k,
    {
        let item = &items[k];
        proof {
            assert(all[k as int] == item@);
            item_data_is_short(descriptor@, k as int);
        }
        if item.tag == REPORT_COUNT {
            count = match reading {
                CutOff::Zero => if item.data.len() < item.size {
                    0
                } else {
                    le_value(item.data.as_slice())
                },
                CutOff::Padded => le_value(item.data.as_slice()),
            };
        } else if item.tag == FEATURE && count >= min_count {
            return true;
        }
        k = k + 1;
    }
    false
}

/// The low two bits of a prefix announce no data, one byte, two bytes, or four.
pub proof fn prefixes_announce_sizes(prefix: u8)
    ensures
        prefix % 4 == 0 ==> data_size(prefix) == 0,
        prefix % 4 == 1 ==> data_size(prefix) == 1,
        prefix % 4 == 2 ==> data_size(prefix) == 2,
        prefix % 4 == 3 ==> data_size(prefix) == 4,
{
}

/// A complete short item stands for itself, with the tag in all but the low two
/// bits of its prefix, and what follows it is read as if it stood alone.
pub proof fn short_items_follow_each_other(prefix: u8, data: Seq<u8>, rest: Seq<u8>)
    requires
        prefix != 0xFE,
        data.len() == data_size(prefix),
    ensures
        short_items(seq![prefix] + data + rest) == seq![
            ItemModel { tag: (4 * (prefix / 4)) as u8, size: data.len(), data },
        ] + short_items(rest),
{
    let d = seq![prefix] + data + rest;
    assert(d[0] == prefix);
    assert(d.skip(item_len(d) as int) =~= rest);
    assert(d.subrange(1, item_len(d) as int) =~= data);
}

/// A long item, which tells its length in its second byte, is passed over, and an
/// empty descriptor has no items.
pub proof fn long_items_are_passed_over(tag: u8, data: Seq<u8>, rest: Seq<u8>)
    requires
        data.len() <= 255,
    ensures
        short_items(seq![0xFEu8, data.len() as u8, tag] + data + rest) == short_items(rest),
        short_items(Seq::<u8>::empty()) == Seq::<ItemModel>::empty(),
{
    let d = seq![0xFEu8, data.len() as u8, tag] + data + rest;
    assert(d[0] == 0xFE && d[1] == data.len());
    assert(d.skip(item_len(d) as int) =~= rest);
}

/// An item whose data is cut off by the end of the descriptor is the last one, and
/// has the data that is there.
pub proof fn cut_off_items_are_last(prefix: u8, data: Seq<u8>)
    requires
        prefix != 0xFE,
        data.len() < data_size(prefix),
    ensures
        short_items(seq![prefix] + data) == seq![
            ItemModel { tag: (4 * (prefix / 4)) as u8, size: data_size(prefix), data },
        ],
{
    let d = seq![prefix] + data;
    assert(d[0] == prefix);
    assert(d.skip(item_len(d) as int).len() == 0);
    assert(d.subrange(1, item_len(d) as int) =~= data);
    reveal_with_fuel(short_items, 2);
    assert(short_items(d) =~= seq![ItemModel { tag: (4 * (prefix / 4)) as u8, size: data_size(prefix), data }]);
}

/// Bytes spell a number from the least significant on: another byte behind them
/// counts 256 times for each byte before it.
pub proof fn bytes_count_by_their_place(b: Seq<u8>)
    ensures
        b.len() == 0 ==> little_endian(b) == 0,
        b.len() == 1 ==> little_endian(b) == b[0],
        b.len() == 2 ==> little_endian(b) == b[0] + 256 * b[1],
        b.len() == 4 ==> little_endian(b) == b[0] + 256 * b[1] + 65536 * b[2] + 16777216 * b[3],
{
    reveal_with_fuel(little_endian, 5);
    if b.len() > 1 {
        assert(b.skip(1)[0] == b[1]);
        assert(b.skip(1).skip(1) =~= b.skip(2));
        if b.len() > 2 {
            assert(b.skip(2)[0] == b[2]);
            assert(b.skip(2).skip(1) =~= b.skip(3));
            if b.len() > 3 {
                assert(b.skip(3)[0] == b[3]);
            }
        }
    }
}

/// A page is named by a complete item with the tag 04: the low sixteen bits of
/// its data.
pub proof fn usage_pages_are_sixteen_bits(item: ItemModel)
    requires
        item.size == 0 || item.size == 1 || item.size == 2 || item.size == 4,
        item.data.len() <= item.size,
    ensures
        usage_page(item) is Some <==> item.tag == 0x04 && item.size > 0 && item.data.len() == item.size,
        usage_page(item) matches Some(page) ==> page == little_endian(item.data) % 65536,
{
    bytes_count_by_their_place(item.data);
}

/// The Report Count in force is that of the last item with the tag 94 before; it
/// is zero where there is none.
pub proof fn the_last_report_count_is_in_force(
    items: Seq<ItemModel>,
    j: int,
    k: int,
    value: spec_fn(ItemModel) -> nat,
)
    requires
        -1 <= j < k <= items.len(),
        forall|i: int| j < i < k ==> (#[trigger] items[i]).tag != 0x94,
        j >= 0 ==> items[j].tag == 0x94,
    ensures
        j >= 0 ==> count_at(items, k, value) == value(items[j]),
        j < 0 ==> count_at(items, k, value) == 0,
    decreases k,
{
    if k > j + 1 {
        assert(items[k - 1].tag != 0x94);
        the_last_report_count_is_in_force(items, j, k - 1, value);
    }
}

/// A descriptor declares a large enough Feature report exactly if an item with the
/// tag B0 follows a large enough Report Count; a Report Count whose data is cut off
/// counts as zero, or as if zeros followed.
pub proof fn feature_reports_have_counts(d: Seq<u8>, min_count: u32, reading: CutOff, item: ItemModel)
    ensures
        declares_feature(d, min_count, count_value(reading)) <==> exists|k: int|
            0 <= k < short_items(d).len() && (#[trigger] short_items(d)[k]).tag == 0xB0 && count_at(
                short_items(d),
                k,
                count_value(reading),
            ) >= min_count,
        item.data.len() >= item.size ==> count_value(reading)(item) == little_endian(item.data),
        item.data.len() < item.size ==> count_value(CutOff::Zero)(item) == 0,
        count_value(CutOff::Padded)(item) == little_endian(item.data),
{
}

/// A descriptor names a page exactly if one of its items does: the first, or one of
/// those behind it.
pub proof fn any_item_may_name_the_page(prefix: u8, data: Seq<u8>, rest: Seq<u8>, target: u16)
    requires
        prefix != 0xFE,
        data.len() == data_size(prefix),
    ensures
        names_usage_page(seq![prefix] + data + rest, target) <==> usage_page(
            ItemModel { tag: (4 * (prefix / 4)) as u8, size: data.len(), data },
        ) == Some(target) || names_usage_page(rest, target),
        !names_usage_page(Seq::<u8>::empty(), target),
{
    short_items_follow_each_other(prefix, data, rest);
    let d = seq![prefix] + data + rest;
    let all = short_items(d);
    let behind = short_items(rest);
    if names_usage_page(rest, target) {
        let k = choose|k: int| 0 <= k < behind.len() && usage_page(#[trigger] behind[k]) == Some(target);
        assert(all[k + 1] == behind[k]);
    }
    if names_usage_page(d, target) {
        let k = choose|k: int| 0 <= k < all.len() && usage_page(#[trigger] all[k]) == Some(target);
        if k > 0 {
            assert(behind[k - 1] == all[k]);
        }
    }
    if usage_page(ItemModel { tag: (4 * (prefix / 4)) as u8, size: data.len(), data }) == Some(target) {
        assert(usage_page(all[0]) == Some(target));
    }
}

} // verus!
