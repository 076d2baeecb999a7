//! Shadow state for keyboards whose keymap cannot be read back.
//!
//! A legacy driver keeps the keymap that it was told on the host, pushes it to
//! the device on commit, and falls back to the last pushed keymap when a push
//! fails.

use vstd::prelude::*;

use crate::hal::keymap::{Keymap, Slot};
use crate::hal::DriverError;
use crate::sorted::SortedMap;

pub mod gmk67;
pub mod logitech;

verus! {

/// Lighting as one packed payload.
pub const VIA_CHANNEL_PACKED: u8 = 0;

/// Lighting as single RGB-matrix values.
pub const VIA_CHANNEL_RGB_MATRIX: u8 = 3;

pub const VIA_VALUE_BRIGHTNESS: u8 = 1;

pub const VIA_VALUE_EFFECT: u8 = 2;

pub const VIA_VALUE_SPEED: u8 = 3;

/// Hue and saturation.
pub const VIA_VALUE_COLOR: u8 = 4;

/// How the shadow keymap relates to the device.
#[derive(Clone, Copy, PartialEq, Eq, Structural, Debug)]
pub enum CacheStatus {
    /// The device holds the shadow keymap.
    Confirmed,
    /// A change has not been pushed yet.
    Pending,
    /// The last push failed, and the shadow was rolled back.
    Failed,
}

/// A remapped key in the persisted keymap.
#[derive(Clone, Copy, PartialEq, Eq, Structural, Debug)]
pub struct KeymapEntry {
    pub layer: u8,
    pub row: u8,
    pub col: u8,
    pub keycode: u16,
}

/// Lighting as it is persisted beside the keymap.
#[derive(Clone, Copy, PartialEq, Eq, Structural, Debug)]
pub struct LightingState {
    pub mode: u8,
    pub r: u8,
    pub g: u8,
    pub b: u8,
    pub brightness: u8,
    pub speed: u8,
    pub direction: u8,
    pub random: bool,
}

impl LightingState {
    /// Static white at full brightness.
    pub open spec fn initial() -> LightingState {
        LightingState {
            mode: 0x01,
            r: 0xFF,
            g: 0xFF,
            b: 0xFF,
            brightness: 0x0F,
            speed: 0x00,
            direction: 0x00,
            random: false,
        }
    }
}

impl Default for LightingState {
    fn default() -> (l: LightingState)
        ensures
            l == LightingState::initial(),
    {
        LightingState {
            mode: 0x01,
            r: 0xFF,
            g: 0xFF,
            b: 0xFF,
            brightness: 0x0F,
            speed: 0x00,
            direction: 0x00,
            random: false,
        }
    }
}

/// The version of the persisted format.
pub const SHADOW_FILE_VERSION: u32 = 1;

/// What is persisted of a shadow state.
#[derive(Debug)]
pub struct ShadowFile {
    pub version: u32,
    pub keymap: Vec<KeymapEntry>,
    pub lighting: Option<LightingState>,
}

/// A shadow file to be written, and where.
#[derive(Debug)]
pub struct SaveRequest {
    pub path: String,
    pub file: ShadowFile,
}

/// How a commit ended, and what is to be persisted.
#[derive(Debug)]
pub struct CommitOutcome {
    pub result: Result<(), DriverError>,
    pub save: Option<SaveRequest>,
}

/// The name of the file that holds the shadow state of a device.
pub fn shadow_file_name(device_id: &str) -> (name: String)
    ensures
        name@ == device_id@ + ".json"@,
{
    device_id.to_owned().concat(".json")
}

/// The keymap that the entries spell out; of two entries for one key the later wins.
pub open spec fn keymap_of(entries: Seq<KeymapEntry>) -> Map<(u8, u8, u8), u16>
    decreases entries.len(),
{
    if entries.len() == 0 {
        Map::empty()
    } else {
        let e = entries.last();
        keymap_of(entries.drop_last()).insert((e.layer, e.row, e.col), e.keycode)
    }
}

/// The keymap in a persisted file, if there is one to read.
pub open spec fn stored_keymap(path: Option<String>, file: Option<ShadowFile>) -> Map<(u8, u8, u8), u16> {
    match file {
        Some(f) if path is Some => keymap_of(f.keymap@),
        _ => Map::empty(),
    }
}

/// The lighting in a persisted file, or the initial lighting.
pub open spec fn stored_lighting(path: Option<String>, file: Option<ShadowFile>) -> LightingState {
    match file {
        Some(f) if path is Some && f.lighting is Some => f.lighting->0,
        _ => LightingState::initial(),
    }
}

/// Some key of `layer` is in `keymap`.
pub open spec fn has_layer(keymap: Map<(u8, u8, u8), u16>, layer: u8) -> bool {
    exists|row: u8, col: u8| #[trigger] keymap.dom().contains((layer, row, col))
}

/// `layers` names the layers of `keymap`, in increasing order and once each.
pub open spec fn lists_layers(layers: Seq<u8>, keymap: Map<(u8, u8, u8), u16>) -> bool {
    &&& forall|i: int, j: int| 0 <= i < j < layers.len() ==> #[trigger] layers[i] < #[trigger] layers[j]
    &&& forall|i: int| 0 <= i < layers.len() ==> has_layer(keymap, #[trigger] layers[i])
    &&& forall|layer: u8| #[trigger] has_layer(keymap, layer) ==> layers.contains(layer)
}

/// `cells` lists the keys of one layer of `keymap` by row and column.
pub open spec fn lists_cells(cells: Seq<(u8, u8, u16)>, keymap: Map<(u8, u8, u8), u16>, layer: u8) -> bool {
    &&& forall|i: int, j: int|
        0 <= i < j < cells.len() ==> {
            let a = #[trigger] cells[i];
            let b = #[trigger] cells[j];
            a.0 < b.0 || (a.0 == b.0 && a.1 < b.1)
        }
    &&& forall|i: int|
        0 <= i < cells.len() ==> {
            let c = #[trigger] cells[i];
            keymap.dom().contains((layer, c.0, c.1)) && keymap[(layer, c.0, c.1)] == c.2
        }
    &&& forall|row: u8, col: u8| #[trigger]
        keymap.dom().contains((layer, row, col)) ==> cells.contains((row, col, keymap[(layer, row, col)]))
}

/// `entries` lists `keymap` by layer, row and column.
pub open spec fn lists_keymap(entries: Seq<KeymapEntry>, keymap: Map<(u8, u8, u8), u16>) -> bool {
    &&& forall|i: int, j: int|
        0 <= i < j < entries.len() ==> {
            let a = #[trigger] entries[i];
            let b = #[trigger] entries[j];
            a.layer < b.layer || (a.layer == b.layer && (a.row < b.row || (a.row == b.row && a.col < b.col)))
        }
    &&& keymap_of(entries) == keymap
}

/// The shadow keymap of one device.
pub struct ShadowState {
    keymap: Keymap,
    confirmed: Keymap,
    dirty: Keymap,
    lighting: LightingState,
    status: CacheStatus,
    data_path: Option<String>,
}

/// Lists `keymap` by layer, row and column.
pub(crate) fn entries_of(keymap: &Keymap) -> (entries: Vec<KeymapEntry>)
    requires
        keymap.wf(),
    ensures
        lists_keymap(entries@, keymap@),
{
    let mut entries: Vec<KeymapEntry> = Vec::new();
    let n: usize = keymap.len();
    let mut i: usize = 0;
    proof {
        keymap.items_are_the_map();
        assert(keymap.items().take(0) =~= Seq::empty());
        assert(crate::sorted::map_of(keymap.items().take(0)) =~= keymap_of(entries@));
    }
    while i < n
        invariant
            keymap.wf(),
            crate::sorted::ascending(keymap.items()),
            n == keymap.items().len(),
            i <= n,
            entries@.len() == i,
            forall|j: int|
                0 <= j < i ==> {
                    let e = #[trigger] entries@[j];
                    let item = keymap.items()[j];
                    item.0 == (Slot { layer: e.layer, row: e.row, col: e.col }) && item.1 == e.keycode
                },
            keymap_of(entries@) == crate::sorted::map_of(keymap.items().take(i as int)),
        decreases n - i,
    {
        let item = keymap.at(i);
        let entry = KeymapEntry {
            layer: item.0.layer,
            row: item.0.row,
            col: item.0.col,
            keycode: item.1,
        };
        let ghost before = entries@;
        entries.push(entry);
        proof {
            let items = keymap.items();
            assert(entries@.drop_last() =~= before);
            crate::sorted::map_of_prefix(items, i as int);
        }
        i = i + 1;
    }
    proof {
        assert(keymap.items().take(n as int) =~= keymap.items());
        keymap.items_are_the_map();
        let items = keymap.items();
        assert forall|i: int, j: int| 0 <= i < j < entries@.len() implies {
            let a = #[trigger] entries@[i];
            let b = #[trigger] entries@[j];
            a.layer < b.layer || (a.layer == b.layer && (a.row < b.row || (a.row == b.row && a.col < b.col)))
        } by {
            assert(<Slot as crate::sorted::Key>::precedes(
                crate::sorted::Key::model(&items[i].0),
                crate::sorted::Key::model(&items[j].0),
            ));
        }
    }
    entries
}

/// The keymap that the entries spell out.
fn keymap_from(entries: &Vec<KeymapEntry>) -> (keymap: Keymap)
    ensures
        keymap.wf(),
        keymap@ == keymap_of(entries@),
{
    let mut keymap: Keymap = SortedMap::new();
    let mut i: usize = 0;
    while i < entries.len()
        invariant
            i <= entries@.len(),
            keymap.wf(),
            keymap@ == keymap_of(entries@.take(i as int)),
        decreases entries@.len() - i,
    {
        let e = entries[i];
        keymap.insert(Slot { layer: e.layer, row: e.row, col: e.col }, e.keycode);
        proof {
            assert(entries@.take(i + 1).drop_last() =~= entries@.take(i as int));
        }
        i = i + 1;
    }
    proof {
        assert(entries@.take(i as int) =~= entries@);
    }
    keymap
}

impl ShadowState {
    /// What `get_keycode` reads.
    pub closed spec fn keymap(&self) -> Map<(u8, u8, u8), u16> {
        self.keymap@
    }

    /// The keymap that was last pushed, or loaded.
    pub closed spec fn confirmed(&self) -> Map<(u8, u8, u8), u16> {
        self.confirmed@
    }

    /// What was written since then.
    pub closed spec fn dirty(&self) -> Map<(u8, u8, u8), u16> {
        self.dirty@
    }

    pub closed spec fn light(&self) -> LightingState {
        self.lighting
    }

    pub closed spec fn cache_status(&self) -> CacheStatus {
        self.status
    }

    pub closed spec fn path(&self) -> Option<String> {
        self.data_path
    }

    /// The keymap is the confirmed keymap with the dirty entries written over it.
    pub closed spec fn wf(&self) -> bool {
        &&& self.keymap.wf()
        &&& self.confirmed.wf()
        &&& self.dirty.wf()
        &&& self.keymap@ == self.confirmed@.union_prefer_right(self.dirty@)
    }

    /// Everything but the status and the path is unchanged.
    pub open spec fn same_contents(&self, other: &ShadowState) -> bool {
        &&& self.keymap() == other.keymap()
        &&& self.confirmed() == other.confirmed()
        &&& self.dirty() == other.dirty()
        &&& self.light() == other.light()
    }

    /// The keymap is the confirmed keymap with the dirty entries written over it.
    pub proof fn dirty_entries_are_the_difference(&self)
        requires
            self.wf(),
        ensures
            self.keymap() == self.confirmed().union_prefer_right(self.dirty()),
    {
    }

    /// A shadow that starts from what was persisted at `data_path`.
    ///
    /// `file` is what the file held, or `None` where it could not be read or parsed.
    pub fn load(data_path: Option<String>, file: Option<ShadowFile>) -> (s: ShadowState)
        ensures
            s.wf(),
            s.keymap() == stored_keymap(data_path, file),
            s.confirmed() == s.keymap(),
            s.dirty() == Map::<(u8, u8, u8), u16>::empty(),
            s.light() == stored_lighting(data_path, file),
            s.cache_status() == CacheStatus::Confirmed,
            s.path() == data_path,
    {
        let mut keymap: Keymap = SortedMap::new();
        let mut lighting: LightingState = LightingState::default();
        if data_path.is_some() {
            if let Some(f) = file {
                keymap = keymap_from(&f.keymap);
                if let Some(l) = f.lighting {
                    lighting = l;
                }
            }
        }
        let confirmed = keymap.duplicate();
        let s = ShadowState {
            keymap,
            confirmed,
            dirty: SortedMap::new(),
            lighting,
            status: CacheStatus::Confirmed,
            data_path,
        };
        proof {
            assert(s.keymap@ =~= s.confirmed@.union_prefer_right(s.dirty@));
        }
        s
    }

    /// A shadow that is kept in memory only.
    pub fn ephemeral() -> (s: ShadowState)
        ensures
            s.wf(),
            s.keymap() == Map::<(u8, u8, u8), u16>::empty(),
            s.confirmed() == s.keymap(),
            s.dirty() == Map::<(u8, u8, u8), u16>::empty(),
            s.light() == LightingState::initial(),
            s.cache_status() == CacheStatus::Confirmed,
            s.path() == None::<String>,
    {
        ShadowState::load(None, None)
    }

    /// The keycode at an address; 0 where nothing was written.
    pub fn get_keycode(&self, layer: u8, row: u8, col: u8) -> (keycode: u16)
        requires
            self.wf(),
        ensures
            keycode == if self.keymap().dom().contains((layer, row, col)) {
                self.keymap()[(layer, row, col)]
            } else {
                0
            },
    {
        match self.keymap.get(&Slot { layer, row, col }) {
            Some(keycode) => *keycode,
            None => 0,
        }
    }

    /// Writes a keycode and marks its address dirty.
    pub fn set_keycode(&mut self, layer: u8, row: u8, col: u8, keycode: u16)
        requires
            old(self).wf(),
        ensures
            final(self).wf(),
            final(self).keymap() == old(self).keymap().insert((layer, row, col), keycode),
            final(self).confirmed() == old(self).confirmed(),
            final(self).dirty() == old(self).dirty().insert((layer, row, col), keycode),
            final(self).light() == old(self).light(),
            final(self).cache_status() == CacheStatus::Pending,
            final(self).path() == old(self).path(),
    {
        self.keymap.insert(Slot { layer, row, col }, keycode);
        self.dirty.insert(Slot { layer, row, col }, keycode);
        self.status = CacheStatus::Pending;
        proof {
            assert(self.keymap@ =~= self.confirmed@.union_prefer_right(self.dirty@));
        }
    }

    /// True when something was written since the last commit.
    pub fn is_dirty(&self) -> (dirty: bool)
        requires
            self.wf(),
        ensures
            dirty == (self.dirty() != Map::<(u8, u8, u8), u16>::empty()),
    {
        proof {
            self.dirty.items_are_the_map();
            if self.dirty@.dom().len() == 0 {
                assert(self.dirty@.dom() =~= Set::empty());
                assert(self.dirty@ =~= Map::empty());
            }
        }
        self.dirty.len() > 0
    }

    /// How many keys are remapped.
    pub fn key_count(&self) -> (n: usize)
        requires
            self.wf(),
        ensures
            n == self.keymap().dom().len(),
    {
        self.keymap.len()
    }

    /// The layers with pending changes, in increasing order.
    pub fn dirty_layers(&self) -> (layers: Vec<u8>)
        requires
            self.wf(),
        ensures
            lists_layers(layers@, self.dirty()),
    {
        let mut layers: Vec<u8> = Vec::new();
        let n: usize = self.dirty.len();
        let mut i: usize = 0;
        proof {
            self.dirty.items_are_the_map();
        }
        let ghost items = self.dirty.items();
        while i < n
            invariant
                items == self.dirty.items(),
                n == items.len(),
                i <= n,
                crate::sorted::ascending(items),
                i == 0 ==> layers@.len() == 0,
                i > 0 ==> layers@.len() > 0 && layers@.last() == items[i - 1].0.layer,
                forall|a: int, b: int| 0 <= a < b < layers@.len() ==> #[trigger] layers@[a] < #[trigger] layers@[b],
                forall|a: int|
                    0 <= a < layers@.len() ==> exists|j: int|
                        0 <= j < i && (#[trigger] items[j]).0.layer == #[trigger] layers@[a],
                forall|j: int| 0 <= j < i ==> layers@.contains((#[trigger] items[j]).0.layer),
            decreases n - i,
        {
            let layer: u8 = self.dirty.at(i).0.layer;
            let ghost before = layers@;
            if layers.len() == 0 || layers[layers.len() - 1] != layer {
                proof {
                    if i > 0 {
                        assert(<Slot as crate::sorted::Key>::precedes(
                            crate::sorted::Key::model(&items[i - 1].0),
                            crate::sorted::Key::model(&items[i as int].0),
                        ));
                        assert(before.last() < layer);
                        assert forall|a: int| 0 <= a < before.len() implies before[a] < layer by {
                            if a < before.len() - 1 {
                                assert(before[a] < before[before.len() - 1]);
                            }
                        }
                    }
                }
                layers.push(layer);
                proof {
                    assert(layers@[layers@.len() - 1] == items[i as int].0.layer);
                }
            }
            proof {
                assert forall|j: int| 0 <= j < i + 1 implies layers@.contains((#[trigger] items[j]).0.layer) by {
                    if j < i {
                        let k = choose|k: int| 0 <= k < before.len() && before[k] == items[j].0.layer;
                        assert(layers@[k] == items[j].0.layer);
                    } else {
                        assert(layers@[layers@.len() - 1] == layer);
                    }
                }
                assert forall|a: int| 0 <= a < layers@.len() implies exists|j: int|
                    0 <= j < i + 1 && (#[trigger] items[j]).0.layer == #[trigger] layers@[a] by {
                    if a < before.len() {
                        assert(layers@[a] == before[a]);
                        let j = choose|j: int| 0 <= j < i && (#[trigger] items[j]).0.layer == before[a];
                        assert(items[j].0.layer == layers@[a]);
                    } else {
                        assert(items[i as int].0.layer == layers@[a]);
                    }
                }
            }
            i = i + 1;
        }
        proof {
            let keymap = self.dirty@;
            assert forall|a: int| 0 <= a < layers@.len() implies has_layer(keymap, #[trigger] layers@[a]) by {
                let j = choose|j: int| 0 <= j < i && (#[trigger] items[j]).0.layer == layers@[a];
                let slot = items[j].0;
                assert(keymap.dom().contains((layers@[a], slot.row, slot.col)));
            }
            assert forall|layer: u8| #[trigger] has_layer(keymap, layer) implies layers@.contains(layer) by {
                let (row, col) = choose|row: u8, col: u8| #[trigger] keymap.dom().contains((layer, row, col));
                let j = crate::sorted::place(items, (layer, row, col));
                assert(crate::sorted::holds(items, (layer, row, col)));
                assert(layers@.contains(items[j].0.layer));
            }
        }
        layers
    }

    /// The keys of a layer as `(row, col, keycode)`, by row and column.
    pub fn layer_entries(&self, layer: u8) -> (cells: Vec<(u8, u8, u16)>)
        requires
            self.wf(),
        ensures
            lists_cells(cells@, self.keymap(), layer),
    {
        let mut cells: Vec<(u8, u8, u16)> = Vec::new();
        let n: usize = self.keymap.len();
        let mut i: usize = 0;
        proof {
            self.keymap.items_are_the_map();
        }
        let ghost items = self.keymap.items();
        while i < n
            invariant
                items == self.keymap.items(),
                n == items.len(),
                i <= n,
                crate::sorted::ascending(items),
                forall|a: int, b: int|
                    0 <= a < b < cells@.len() ==> {
                        let x = #[trigger] cells@[a];
                        let y = #[trigger] cells@[b];
                        x.0 < y.0 || (x.0 == y.0 && x.1 < y.1)
                    },
                forall|a: int|
                    0 <= a < cells@.len() ==> exists|j: int| #![trigger items[j]]
                        0 <= j < i && items[j].0 == (Slot {
                            layer,
                            row: (#[trigger] cells@[a]).0,
                            col: cells@[a].1,
                        }) && items[j].1 == cells@[a].2,
                forall|j: int|
                    0 <= j < i && (#[trigger] items[j]).0.layer == layer ==> cells@.contains(
                        (items[j].0.row, items[j].0.col, items[j].1),
                    ),
            decreases n - i,
        {
            let item = self.keymap.at(i);
            let ghost before = cells@;
            if item.0.layer == layer {
                cells.push((item.0.row, item.0.col, item.1));
                proof {
                    assert forall|a: int| 0 <= a < before.len() implies {
                        let x = #[trigger] before[a];
                        x.0 < item.0.row || (x.0 == item.0.row && x.1 < item.0.col)
                    } by {
                        let j = choose|j: int| #![trigger items[j]]
                            0 <= j < i && items[j].0 == (Slot { layer, row: before[a].0, col: before[a].1 })
                                && items[j].1 == before[a].2;
                        assert(<Slot as crate::sorted::Key>::precedes(
                            crate::sorted::Key::model(&items[j].0),
                            crate::sorted::Key::model(&items[i as int].0),
                        ));
                    }
                    assert(cells@[before.len() as int] == (item.0.row, item.0.col, item.1));
                }
            }
            proof {
                assert forall|a: int| 0 <= a < cells@.len() implies exists|j: int| #![trigger items[j]]
                    0 <= j < i + 1 && items[j].0 == (Slot {
                        layer,
                        row: (#[trigger] cells@[a]).0,
                        col: cells@[a].1,
                    }) && items[j].1 == cells@[a].2 by {
                    if a < before.len() {
                        assert(cells@[a] == before[a]);
                        let j = choose|j: int| #![trigger items[j]]
                            0 <= j < i && items[j].0 == (Slot { layer, row: before[a].0, col: before[a].1 })
                                && items[j].1 == before[a].2;
                        assert(items[j].1 == cells@[a].2);
                    } else {
                        assert(items[i as int].1 == cells@[a].2);
                    }
                }
                assert forall|j: int| 0 <= j < i + 1 && (#[trigger] items[j]).0.layer == layer implies cells@.contains(
                    (items[j].0.row, items[j].0.col, items[j].1),
                ) by {
                    let cell = (items[j].0.row, items[j].0.col, items[j].1);
                    if j < i {
                        let k = choose|k: int| 0 <= k < before.len() && before[k] == cell;
                        assert(cells@[k] == cell);
                    } else {
                        assert(cells@[before.len() as int] == cell);
                    }
                }
            }
            i = i + 1;
        }
        proof {
            let keymap = self.keymap@;
            assert forall|a: int| 0 <= a < cells@.len() implies {
                let c = #[trigger] cells@[a];
                keymap.dom().contains((layer, c.0, c.1)) && keymap[(layer, c.0, c.1)] == c.2
            } by {
                let j = choose|j: int| #![trigger items[j]]
                    0 <= j < i && items[j].0 == (Slot { layer, row: cells@[a].0, col: cells@[a].1 }) && items[j].1
                        == cells@[a].2;
                assert(keymap[crate::sorted::Key::model(&items[j].0)] == items[j].1);
            }
            assert forall|row: u8, col: u8| #[trigger] keymap.dom().contains((layer, row, col)) implies cells@.contains(
                (row, col, keymap[(layer, row, col)]),
            ) by {
                let j = crate::sorted::place(items, (layer, row, col));
                assert(crate::sorted::holds(items, (layer, row, col)));
                assert(items[j].0.layer == layer);
            }
        }
        cells
    }

    /// How the shadow relates to the device.
    pub fn status(&self) -> (status: CacheStatus)
        ensures
            status == self.cache_status(),
    {
        self.status
    }

    /// The lighting beside the keymap.
    pub fn lighting(&self) -> (lighting: &LightingState)
        ensures
            *lighting == self.light(),
    {
        &self.lighting
    }

    /// Replaces the lighting.
    pub fn set_lighting(&mut self, lighting: LightingState)
        requires
            old(self).wf(),
        ensures
            final(self).wf(),
            final(self).keymap() == old(self).keymap(),
            final(self).confirmed() == old(self).confirmed(),
            final(self).dirty() == old(self).dirty(),
            final(self).light() == lighting,
            final(self).cache_status() == old(self).cache_status(),
            final(self).path() == old(self).path(),
    {
        self.lighting = lighting;
    }

    /// Before a push: the shadow is pending. The confirmed keymap stays what it was.
    pub fn prepare_commit(&mut self)
        requires
            old(self).wf(),
        ensures
            final(self).wf(),
            final(self).same_contents(old(self)),
            final(self).cache_status() == CacheStatus::Pending,
            final(self).path() == old(self).path(),
    {
        self.status = CacheStatus::Pending;
    }

    /// After a successful push: the keymap is confirmed and is to be persisted.
    pub fn confirm_commit(&mut self) -> (save: Option<SaveRequest>)
        requires
            old(self).wf(),
        ensures
            final(self).wf(),
            final(self).keymap() == old(self).keymap(),
            final(self).confirmed() == old(self).keymap(),
            final(self).dirty() == Map::<(u8, u8, u8), u16>::empty(),
            final(self).light() == old(self).light(),
            final(self).cache_status() == CacheStatus::Confirmed,
            final(self).path() == old(self).path(),
            saves(save, final(self).path(), final(self).keymap(), final(self).light()),
    {
        self.confirmed = self.keymap.duplicate();
        self.dirty.clear();
        self.status = CacheStatus::Confirmed;
        proof {
            assert(self.keymap@ =~= self.confirmed@.union_prefer_right(self.dirty@));
        }
        self.save()
    }

    /// After a failed push: the keymap is what it was when it was last confirmed.
    pub fn rollback(&mut self)
        requires
            old(self).wf(),
        ensures
            final(self).wf(),
            final(self).keymap() == old(self).confirmed(),
            final(self).confirmed() == old(self).confirmed(),
            final(self).dirty() == Map::<(u8, u8, u8), u16>::empty(),
            final(self).light() == old(self).light(),
            final(self).cache_status() == CacheStatus::Failed,
            final(self).path() == old(self).path(),
    {
        self.keymap = self.confirmed.duplicate();
        self.dirty.clear();
        self.status = CacheStatus::Failed;
        proof {
            assert(self.keymap@ =~= self.confirmed@.union_prefer_right(self.dirty@));
        }
    }

    /// Takes over a keymap that was read from the device: it is what the shadow
    /// holds, and it is confirmed.
    pub fn adopt_confirmed(&mut self, entries: Keymap)
        requires
            old(self).wf(),
            entries.wf(),
        ensures
            final(self).wf(),
            final(self).keymap() == entries@,
            final(self).confirmed() == entries@,
            final(self).dirty() == Map::<(u8, u8, u8), u16>::empty(),
            final(self).light() == old(self).light(),
            final(self).cache_status() == CacheStatus::Confirmed,
            final(self).path() == old(self).path(),
    {
        self.confirmed = entries.duplicate();
        self.keymap = entries;
        self.dirty.clear();
        self.status = CacheStatus::Confirmed;
        proof {
            assert(self.keymap@ =~= self.confirmed@.union_prefer_right(self.dirty@));
        }
    }

    /// What is to be persisted when only the lighting has changed: the lighting,
    /// beside the confirmed keymap.
    pub fn persist_lighting(&self) -> (save: Option<SaveRequest>)
        requires
            self.wf(),
        ensures
            saves(save, self.path(), self.confirmed(), self.light()),
    {
        match &self.data_path {
            Some(path) => Some(
                SaveRequest {
                    path: path.clone(),
                    file: ShadowFile {
                        version: SHADOW_FILE_VERSION,
                        keymap: entries_of(&self.confirmed),
                        lighting: Some(self.lighting),
                    },
                },
            ),
            None => None,
        }
    }

    /// What is to be persisted, unless the shadow is kept in memory only.
    fn save(&self) -> (save: Option<SaveRequest>)
        requires
            self.wf(),
        ensures
            saves(save, self.path(), self.keymap(), self.light()),
    {
        match &self.data_path {
            Some(path) => Some(
                SaveRequest {
                    path: path.clone(),
                    file: ShadowFile {
                        version: SHADOW_FILE_VERSION,
                        keymap: entries_of(&self.keymap),
                        lighting: Some(self.lighting),
                    },
                },
            ),
            None => None,
        }
    }
}

/// `save` persists the keymap and the lighting at `path`, if there is a path.
pub open spec fn saves(
    save: Option<SaveRequest>,
    path: Option<String>,
    keymap: Map<(u8, u8, u8), u16>,
    lighting: LightingState,
) -> bool {
    match path {
        Some(p) => {
            &&& save matches Some(request)
            &&& request.path == p
            &&& request.file.version == SHADOW_FILE_VERSION
            &&& lists_keymap(request.file.keymap@, keymap)
            &&& request.file.lighting == Some(lighting)
        },
        None => save is None,
    }
}

/// Loading what was saved gives back the keymap and the lighting.
pub proof fn a_saved_shadow_loads_back(
    request: SaveRequest,
    keymap: Map<(u8, u8, u8), u16>,
    lighting: LightingState,
)
    requires
        saves(Some(request), Some(request.path), keymap, lighting),
    ensures
        stored_keymap(Some(request.path), Some(request.file)) == keymap,
        stored_lighting(Some(request.path), Some(request.file)) == lighting,
{
}

/// Every stored entry that no later entry overrides is in the keymap with its
/// keycode, and nothing else is in it.
pub proof fn the_last_stored_entry_counts(entries: Seq<KeymapEntry>, i: int, slot: (u8, u8, u8))
    ensures
        keymap_of(entries).dom().contains(slot) ==> exists|j: int|
            0 <= j < entries.len() && ((#[trigger] entries[j]).layer, entries[j].row, entries[j].col) == slot,
        0 <= i < entries.len() && (forall|j: int|
            i < j < entries.len() ==> ((#[trigger] entries[j]).layer, entries[j].row, entries[j].col) != (
                entries[i].layer,
                entries[i].row,
                entries[i].col,
            )) ==> {
            let e = entries[i];
            keymap_of(entries).dom().contains((e.layer, e.row, e.col)) && keymap_of(entries)[(e.layer, e.row, e.col)]
                == e.keycode
        },
    decreases entries.len(),
{
    if entries.len() > 0 {
        let before = entries.drop_last();
        the_last_stored_entry_counts(before, i, slot);
        if keymap_of(entries).dom().contains(slot) {
            if keymap_of(before).dom().contains(slot) {
                let j = choose|j: int|
                    0 <= j < before.len() && ((#[trigger] before[j]).layer, before[j].row, before[j].col) == slot;
                assert(entries[j] == before[j]);
            } else {
                assert(entries[entries.len() - 1] == entries.last());
            }
        }
        if 0 <= i < before.len() && (forall|j: int|
            i < j < entries.len() ==> ((#[trigger] entries[j]).layer, entries[j].row, entries[j].col) != (
                entries[i].layer,
                entries[i].row,
                entries[i].col,
            )) {
            assert(before[i] == entries[i]);
            assert forall|j: int| i < j < before.len() implies ((#[trigger] before[j]).layer, before[j].row, before[j].col)
                != (before[i].layer, before[i].row, before[i].col) by {
                assert(before[j] == entries[j]);
            }
            let last = entries[entries.len() - 1];
            assert((last.layer, last.row, last.col) != (entries[i].layer, entries[i].row, entries[i].col));
        }
    }
}

/// A list of a keymap has one entry for each of its keys, with the key's keycode.
pub proof fn lists_have_every_key_once(
    entries: Seq<KeymapEntry>,
    keymap: Map<(u8, u8, u8), u16>,
    i: int,
    slot: (u8, u8, u8),
)
    requires
        lists_keymap(entries, keymap),
    ensures
        0 <= i < entries.len() ==> {
            let e = entries[i];
            keymap.dom().contains((e.layer, e.row, e.col)) && keymap[(e.layer, e.row, e.col)] == e.keycode
        },
        0 <= i < entries.len() - 1 ==> {
            let a = entries[i];
            let b = entries[i + 1];
            65536 * a.layer + 256 * a.row + a.col < 65536 * b.layer + 256 * b.row + b.col
        },
        keymap.dom().contains(slot) ==> exists|j: int|
            0 <= j < entries.len() && ((#[trigger] entries[j]).layer, entries[j].row, entries[j].col) == slot,
{
    if 0 <= i < entries.len() {
        assert forall|j: int| i < j < entries.len() implies ((#[trigger] entries[j]).layer, entries[j].row, entries[j].col)
            != (entries[i].layer, entries[i].row, entries[i].col) by {
            let a = entries[i];
            let b = entries[j];
            assert(a.layer < b.layer || (a.layer == b.layer && (a.row < b.row || (a.row == b.row && a.col < b.col))));
        }
    }
    the_last_stored_entry_counts(entries, i, slot);
}

/// What a shadow starts from: what a file at a path held, and static white at full
/// brightness where it held no lighting; without a path or a file, nothing.
pub proof fn shadows_start_from_what_was_stored(path: Option<String>, file: Option<ShadowFile>, slot: (u8, u8, u8))
    ensures
        path is None || file is None ==> !stored_keymap(path, file).dom().contains(slot),
        path is Some && file is Some ==> stored_keymap(path, file) == keymap_of(file->0.keymap@),
        path is Some && file is Some && file->0.lighting is Some ==> stored_lighting(path, file) == file->0.lighting->0,
        path is None || file is None || file->0.lighting is None ==> {
            let l = stored_lighting(path, file);
            &&& l.mode == 1
            &&& l.r == 255 && l.g == 255 && l.b == 255
            &&& l.brightness == 15
            &&& l.speed == 0 && l.direction == 0 && !l.random
        },
{
}

/// What is saved, where there is a path, is written there in version 1, with every
/// key and the lighting in it; a shadow without a path saves nothing.
pub proof fn saves_hold_the_shadow(
    save: Option<SaveRequest>,
    path: Option<String>,
    keymap: Map<(u8, u8, u8), u16>,
    lighting: LightingState,
)
    requires
        saves(save, path, keymap, lighting),
    ensures
        save is Some <==> path is Some,
        save matches Some(request) ==> {
            &&& request.path == path->0
            &&& request.file.version == 1
            &&& keymap_of(request.file.keymap@) == keymap
            &&& request.file.lighting == Some(lighting)
        },
{
}

/// The numbers of VIA lighting: the channels, and the values of the second.
pub proof fn via_lighting_numbers()
    ensures
        VIA_CHANNEL_PACKED == 0,
        VIA_CHANNEL_RGB_MATRIX == 3,
        VIA_VALUE_BRIGHTNESS == 1,
        VIA_VALUE_EFFECT == 2,
        VIA_VALUE_SPEED == 3,
        VIA_VALUE_COLOR == 4,
{
}

/// A layer counts as present if one of its keys does; its cells are listed with
/// their keycodes, row by row and from left to right.
pub proof fn layers_are_listed_by_their_keys(
    cells: Seq<(u8, u8, u16)>,
    keymap: Map<(u8, u8, u8), u16>,
    layer: u8,
    row: u8,
    col: u8,
    i: int,
)
    requires
        lists_cells(cells, keymap, layer),
    ensures
        has_layer(keymap, layer) <==> cells.len() > 0,
        keymap.dom().contains((layer, row, col)) ==> cells.contains((row, col, keymap[(layer, row, col)])),
        0 <= i < cells.len() ==> keymap.dom().contains((layer, cells[i].0, cells[i].1)) && keymap[(
            layer,
            cells[i].0,
            cells[i].1,
        )] == cells[i].2,
        0 <= i < cells.len() - 1 ==> 256 * cells[i].0 + cells[i].1 < 256 * cells[i + 1].0 + cells[i + 1].1,
{
    if has_layer(keymap, layer) {
        let (r, c) = choose|r: u8, c: u8| #[trigger] keymap.dom().contains((layer, r, c));
        assert(cells.contains((r, c, keymap[(layer, r, c)])));
    }
    if cells.len() > 0 {
        assert(keymap.dom().contains((layer, cells[0].0, cells[0].1)));
    }
}

/// A list of layers names each layer that has a key, once and in order, and no
/// other.
pub proof fn layers_with_keys_are_listed(layers: Seq<u8>, keymap: Map<(u8, u8, u8), u16>, layer: u8, i: int)
    requires
        lists_layers(layers, keymap),
    ensures
        layers.contains(layer) <==> exists|row: u8, col: u8| #[trigger] keymap.dom().contains((layer, row, col)),
        0 <= i < layers.len() - 1 ==> layers[i] < layers[i + 1],
{
    if layers.contains(layer) {
        let j = choose|j: int| 0 <= j < layers.len() && layers[j] == layer;
        assert(has_layer(keymap, layers[j]));
    }
    if exists|row: u8, col: u8| #[trigger] keymap.dom().contains((layer, row, col)) {
        assert(has_layer(keymap, layer));
    }
}

} // verus!
