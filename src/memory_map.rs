//! The MSX2 memory-map catalogue: named address ranges, lookup by address,
//! and the placement of a binary loaded at an address.
use vstd::prelude::*;
use vstd::string::{StrSliceExecFns, StringExecFns};

verus! {

/// A named address range of the memory map.
pub struct MemoryMapSlot {
    pub address: u32,
    pub size: u32,
    pub name: String,
    pub region_type: String,
}

/// Where a binary of a given size lands when loaded at an address.
pub struct LoadInfo {
    pub load_address: u32,
    pub binary_size: u32,
    pub start_address: u32,
    pub end_address: u32,
    pub memory_slot: String,
}

/// A slot as plain values: address, size, name, region type.
pub type SlotView = (u32, u32, Seq<char>, Seq<char>);

pub open spec fn slot_view(s: MemoryMapSlot) -> SlotView {
    (s.address, s.size, s.name@, s.region_type@)
}

/// The standard catalogue, in slot order.
pub open spec fn standard_slots() -> Seq<SlotView> {
    seq![
        (0x0000u32, 0x4000u32, "BIOS/ROM"@, "ROM"@),
        (0x4000u32, 0x4000u32, "Cartridge"@, "Cartridge"@),
        (0x8000u32, 0x4000u32, "RAM (Slot 2)"@, "RAM"@),
        (0xC000u32, 0x4000u32, "RAM Principal"@, "RAM"@),
    ]
}

/// `slots` holds the standard catalogue.
pub open spec fn slots_wf(slots: Seq<MemoryMapSlot>) -> bool {
    slots.len() == standard_slots().len() && forall|i: int|
        0 <= i < slots.len() ==> slot_view(#[trigger] slots[i]) == standard_slots()[i]
}

/// The range of `s` holds `address`.
pub open spec fn slot_contains(s: SlotView, address: u32) -> bool {
    s.0 <= address && address < s.0 + s.1
}

pub open spec fn hex_digits() -> Seq<char> {
    "0123456789ABCDEF"@
}

/// `v` as four upper-case hexadecimal digits.
pub open spec fn hex4(v: u32) -> Seq<char> {
    seq![
        hex_digits()[(v as int / 4096) % 16],
        hex_digits()[(v as int / 256) % 16],
        hex_digits()[(v as int / 16) % 16],
        hex_digits()[v as int % 16],
    ]
}

/// `name (0xHHHH)`.
pub open spec fn slot_label(name: Seq<char>, address: u32) -> Seq<char> {
    name + " (0x"@ + hex4(address) + ")"@
}

/// What a lookup reports for an address that no slot holds.
pub open spec fn unknown_label() -> Seq<char> {
    "Desconocido"@
}

/// The label of the first slot from `i` on that holds `address`.
pub open spec fn find_label_from(slots: Seq<SlotView>, address: u32, i: nat) -> Seq<char>
    decreases slots.len() - i,
{
    if i >= slots.len() {
        unknown_label()
    } else if slot_contains(slots[i as int], address) {
        slot_label(slots[i as int].2, slots[i as int].0)
    } else {
        find_label_from(slots, address, i + 1)
    }
}

/// The label of the first slot that holds `address`, or the unknown label.
pub open spec fn find_label(slots: Seq<SlotView>, address: u32) -> Seq<char> {
    find_label_from(slots, address, 0)
}

/// Appends hexadecimal digit `d` to `s`.
fn push_hex_digit(s: &mut String, d: u32)
    requires
        d < 16,
    ensures
        final(s)@ == old(s)@ + seq![hex_digits()[d as int]],
{
    let digits: &str = "0123456789ABCDEF";
    proof {
        reveal_strlit("0123456789ABCDEF");
    }
    let one: &str = digits.substring_char(d as usize, d as usize + 1);
    assert(one@ =~= seq![hex_digits()[d as int]]);
    s.append(one);
}

/// `name (0xHHHH)` for an address below 0x10000.
fn format_slot_label(name: &String, address: u32) -> (r: String)
    requires
        address <= 0xFFFF,
    ensures
        r@ == slot_label(name@, address),
{
    let mut r: String = name.clone();
    r.append(" (0x");
    push_hex_digit(&mut r, (address / 4096) % 16);
    push_hex_digit(&mut r, (address / 256) % 16);
    push_hex_digit(&mut r, (address / 16) % 16);
    push_hex_digit(&mut r, address % 16);
    r.append(")");
    assert(r@ =~= slot_label(name@, address));
    r
}

impl MemoryMapSlot {
    pub fn new(address: u32, size: u32, name: String, region_type: String) -> (r: MemoryMapSlot)
        ensures
            r.address == address,
            r.size == size,
            r.name == name,
            r.region_type == region_type,
    {
        MemoryMapSlot { address, size, name, region_type }
    }

    pub fn get_address(&self) -> (r: u32)
        ensures
            r == self.address,
    {
        self.address
    }

    pub fn get_size(&self) -> (r: u32)
        ensures
            r == self.size,
    {
        self.size
    }

    pub fn get_name(&self) -> (r: String)
        ensures
            r@ == self.name@,
    {
        self.name.clone()
    }

    pub fn get_region_type(&self) -> (r: String)
        ensures
            r@ == self.region_type@,
    {
        self.region_type.clone()
    }
}

impl LoadInfo {
    pub fn new(
        load_address: u32,
        binary_size: u32,
        start_address: u32,
        end_address: u32,
        memory_slot: String,
    ) -> (r: LoadInfo)
        ensures
            r.load_address == load_address,
            r.binary_size == binary_size,
            r.start_address == start_address,
            r.end_address == end_address,
            r.memory_slot == memory_slot,
    {
        LoadInfo { load_address, binary_size, start_address, end_address, memory_slot }
    }

    pub fn get_load_address(&self) -> (r: u32)
        ensures
            r == self.load_address,
    {
        self.load_address
    }

    pub fn get_binary_size(&self) -> (r: u32)
        ensures
            r == self.binary_size,
    {
        self.binary_size
    }

    pub fn get_start_address(&self) -> (r: u32)
        ensures
            r == self.start_address,
    {
        self.start_address
    }

    pub fn get_end_address(&self) -> (r: u32)
        ensures
            r == self.end_address,
    {
        self.end_address
    }

    pub fn get_memory_slot(&self) -> (r: String)
        ensures
            r@ == self.memory_slot@,
    {
        self.memory_slot.clone()
    }
}

/// The standard catalogue as slots.
pub fn standard_memory_map() -> (r: Vec<MemoryMapSlot>)
    ensures
        slots_wf(r@),
{
    let mut v: Vec<MemoryMapSlot> = Vec::new();
    v.push(MemoryMapSlot::new(0x0000, 0x4000, "BIOS/ROM".to_owned(), "ROM".to_owned()));
    v.push(MemoryMapSlot::new(0x4000, 0x4000, "Cartridge".to_owned(), "Cartridge".to_owned()));
    v.push(MemoryMapSlot::new(0x8000, 0x4000, "RAM (Slot 2)".to_owned(), "RAM".to_owned()));
    v.push(MemoryMapSlot::new(0xC000, 0x4000, "RAM Principal".to_owned(), "RAM".to_owned()));
    v
}

/// The label of the first slot of the standard catalogue that holds `address`.
pub fn find_slot_label(slots: &Vec<MemoryMapSlot>, address: u32) -> (r: String)
    requires
        slots_wf(slots@),
    ensures
        r@ == find_label(standard_slots(), address),
{
    let mut i: usize = 0;
    while i < slots.len()
        invariant
            i <= slots@.len(),
            slots_wf(slots@),
            find_label(standard_slots(), address) == find_label_from(
                standard_slots(),
                address,
                i as nat,
            ),
        decreases slots@.len() - i,
    {
        let s: &MemoryMapSlot = &slots[i];
        assert(slot_view(*s) == standard_slots()[i as int]);
        if address >= s.address && (address as u64) < (s.address as u64) + (s.size as u64) {
            return format_slot_label(&s.name, s.address);
        }
        i = i + 1;
    }
    "Desconocido".to_owned()
}

/// Where a binary of `binary_size` bytes loaded at `load_address` lands: its
/// end address saturates at `u32::MAX`.
pub fn load_info_for(slots: &Vec<MemoryMapSlot>, load_address: u32, binary_size: u32) -> (r:
    LoadInfo)
    requires
        slots_wf(slots@),
    ensures
        r.load_address == load_address,
        r.binary_size == binary_size,
        r.start_address == load_address,
        r.end_address == (if load_address + binary_size > u32::MAX {
            u32::MAX as int
        } else {
            load_address + binary_size
        }),
        r.memory_slot@ == find_label(standard_slots(), load_address),
{
    let end_address: u32 = load_address.saturating_add(binary_size);
    let memory_slot: String = find_slot_label(slots, load_address);
    LoadInfo::new(load_address, binary_size, load_address, end_address, memory_slot)
}

} // verus!
